//! Dependency relations and the decoding of analyzer output.
//!
//! The external analyzers are collaborators that print text: the Java
//! analyzer lists `caller -> callee` lines, the Go analyzer prints one JSON
//! object per line with `caller` and `callee` fields.  Decoding those texts
//! into dependency relations, and filtering relations by source prefix, is
//! done here; running the analyzers is not.

use vstd::prelude::*;

use crate::args::strings_view;
use crate::json::skip_ws;
use crate::strings::push_char;

verus! {

#[derive(Debug, PartialEq, Eq, Structural, Clone, Copy)]
pub enum PluginKind {
    Java,
    Go,
    JavaScript,
}

/// The analyzer for a language name: `java`, `go` or `js`.
pub open spec fn spec_plugin_kind(lang: Seq<char>) -> Option<PluginKind> {
    if lang == "java"@ {
        Some(PluginKind::Java)
    } else if lang == "go"@ {
        Some(PluginKind::Go)
    } else if lang == "js"@ {
        Some(PluginKind::JavaScript)
    } else {
        None
    }
}

pub fn plugin_kind_for_lang(lang: &str) -> (r: Option<PluginKind>)
    ensures
        r == spec_plugin_kind(lang@),
{
    if crate::strings::str_eq(lang, "java") {
        Some(PluginKind::Java)
    } else if crate::strings::str_eq(lang, "go") {
        Some(PluginKind::Go)
    } else if crate::strings::str_eq(lang, "js") {
        Some(PluginKind::JavaScript)
    } else {
        None
    }
}

/// One dependency relation: a caller, a callee, and the project it was
/// observed for.
pub struct Dr {
    pub source: String,
    pub target: String,
    pub project_id: String,
}

pub ghost struct DrV {
    pub source: Seq<char>,
    pub target: Seq<char>,
    pub project_id: Seq<char>,
}

impl View for Dr {
    type V = DrV;

    open spec fn view(&self) -> DrV {
        DrV { source: self.source@, target: self.target@, project_id: self.project_id@ }
    }
}

pub open spec fn drs_view(v: Seq<Dr>) -> Seq<DrV> {
    v.map_values(|d: Dr| d@)
}

pub open spec fn strs_view(v: Seq<&str>) -> Seq<Seq<char>> {
    v.map_values(|s: &str| s@)
}

// ---------------------------------------------------------------------------
// Character searching
// ---------------------------------------------------------------------------
/// Index of the first occurrence of `c`, or the length of `s` if absent.
pub open spec fn find_char(s: Seq<char>, c: char) -> int
    decreases s.len(),
{
    if s.len() == 0 {
        0
    } else if s[0] == c {
        0
    } else {
        1 + find_char(s.drop_first(), c)
    }
}

pub proof fn lemma_find_char(s: Seq<char>, c: char)
    ensures
        0 <= find_char(s, c) <= s.len(),
        find_char(s, c) < s.len() ==> s[find_char(s, c)] == c,
        forall|m: int| 0 <= m < find_char(s, c) ==> s[m] != c,
    decreases s.len(),
{
    if s.len() > 0 && s[0] != c {
        lemma_find_char(s.drop_first(), c);
        assert forall|m: int| 0 <= m < find_char(s, c) implies s[m] != c by {
            if m > 0 {
                assert(s.drop_first()[m - 1] == s[m]);
            }
        }
    }
}

pub proof fn lemma_find_char_first(s: Seq<char>, c: char, k: int)
    requires
        0 <= k <= s.len(),
        k < s.len() ==> s[k] == c,
        forall|m: int| 0 <= m < k ==> s[m] != c,
        k == s.len() ==> forall|m: int| 0 <= m < s.len() ==> s[m] != c,
    ensures
        find_char(s, c) == k,
    decreases s.len(),
{
    if s.len() > 0 && s[0] != c {
        assert forall|m: int| 0 <= m < k - 1 implies s.drop_first()[m] != c by {
            assert(s.drop_first()[m] == s[m + 1]);
        }
        if k == s.len() {
            assert forall|m: int| 0 <= m < s.drop_first().len() implies s.drop_first()[m] != c by {
                assert(s.drop_first()[m] == s[m + 1]);
            }
        }
        lemma_find_char_first(s.drop_first(), c, k - 1);
    }
}

/// Position of the first occurrence of `c` at or after `i`, or the end of
/// the string.
pub fn find_char_exec(s: &str, i: usize, c: char) -> (j: usize)
    requires
        i <= s@.len(),
    ensures
        i <= j <= s@.len(),
        j - i == find_char(s@.skip(i as int), c),
        j < s@.len() ==> s@[j as int] == c,
{
    let n = s.unicode_len();
    let mut j: usize = i;
    while j < n
        invariant
            i <= j <= n,
            n == s@.len(),
            forall|m: int| i <= m < j ==> s@[m] != c,
        decreases n - j,
    {
        if s.get_char(j) == c {
            proof {
                assert forall|m: int| 0 <= m < j - i implies s@.skip(i as int)[m] != c by {
                    assert(s@.skip(i as int)[m] == s@[m + i]);
                }
                assert(s@.skip(i as int)[j - i] == s@[j as int]);
                lemma_find_char_first(s@.skip(i as int), c, j - i);
            }
            return j;
        }
        j = j + 1;
    }
    proof {
        assert forall|m: int| 0 <= m < s@.skip(i as int).len() implies s@.skip(i as int)[m]
            != c by {
            assert(s@.skip(i as int)[m] == s@[m + i]);
        }
        lemma_find_char_first(s@.skip(i as int), c, n - i);
    }
    n
}

// ---------------------------------------------------------------------------
// Splitting into lines, and on commas
// ---------------------------------------------------------------------------
/// The lines of a text: split on `\n`, with a trailing `\r` stripped from
/// each line, no line after a trailing newline, and no lines in an empty
/// text.
pub open spec fn spec_lines(s: Seq<char>) -> Seq<Seq<char>>
    decreases s.len(),
{
    if s.len() == 0 {
        Seq::empty()
    } else {
        proof {
            lemma_find_char(s, '\n');
        }
        let i = find_char(s, '\n');
        let raw = s.take(i);
        let line = if raw.len() > 0 && raw.last() == '\r' {
            raw.drop_last()
        } else {
            raw
        };
        if i >= s.len() {
            seq![line]
        } else {
            seq![line] + spec_lines(s.skip(i + 1))
        }
    }
}

fn split_lines_rec(s: &str, i: usize, out: &mut Vec<String>)
    requires
        i <= s@.len(),
    ensures
        strings_view(final(out)@) == strings_view(old(out)@) + spec_lines(s@.skip(i as int)),
    decreases s@.len() - i,
{
    let n = s.unicode_len();
    if i >= n {
        proof {
            assert(s@.skip(i as int).len() == 0);
            assert(strings_view(out@) =~= strings_view(old(out)@) + spec_lines(
                s@.skip(i as int),
            ));
        }
        return;
    }
    let j = find_char_exec(s, i, '\n');
    let ghost sub = s@.skip(i as int);
    proof {
        lemma_find_char(sub, '\n');
        assert(sub.take(j - i) =~= s@.subrange(i as int, j as int));
    }
    let line_str: &str = if j > i && s.get_char(j - 1) == '\r' {
        proof {
            assert(sub.take(j - i).last() == s@[j - 1]);
            assert(sub.take(j - i).drop_last() =~= s@.subrange(i as int, j - 1));
        }
        s.substring_char(i, j - 1)
    } else {
        s.substring_char(i, j)
    };
    let ghost pre = out@;
    out.push(String::from_str(line_str));
    proof {
        assert(strings_view(out@) =~= strings_view(pre).push(line_str@));
    }
    if j >= n {
        proof {
            assert(spec_lines(sub) =~= seq![line_str@]);
            assert(strings_view(out@) =~= strings_view(old(out)@) + spec_lines(sub));
        }
        return;
    }
    proof {
        assert(sub.skip((j - i) + 1) =~= s@.skip(j + 1));
    }
    split_lines_rec(s, j + 1, out);
    proof {
        assert(spec_lines(sub) =~= seq![line_str@] + spec_lines(s@.skip(j + 1)));
        assert(strings_view(out@) =~= strings_view(old(out)@) + spec_lines(sub));
    }
}

/// Splits a text into its lines.
pub fn split_lines(s: &str) -> (r: Vec<String>)
    ensures
        strings_view(r@) == spec_lines(s@),
{
    let mut out: Vec<String> = Vec::new();
    proof {
        assert(s@.skip(0) =~= s@);
    }
    split_lines_rec(s, 0, &mut out);
    proof {
        assert(strings_view(Seq::<String>::empty()) =~= Seq::<Seq<char>>::empty());
        assert(strings_view(out@) =~= spec_lines(s@));
    }
    out
}

/// Comma-separated pieces, exactly as the standard split yields them: an
/// empty text is one empty piece, and adjacent commas yield empty pieces.
pub open spec fn spec_split_csv(s: Seq<char>) -> Seq<Seq<char>>
    decreases s.len(),
{
    proof {
        lemma_find_char(s, ',');
    }
    let i = find_char(s, ',');
    if i >= s.len() {
        seq![s]
    } else {
        seq![s.take(i)] + spec_split_csv(s.skip(i + 1))
    }
}

fn split_csv_rec(s: &str, i: usize, out: &mut Vec<String>)
    requires
        i <= s@.len(),
    ensures
        strings_view(final(out)@) == strings_view(old(out)@) + spec_split_csv(s@.skip(i as int)),
    decreases s@.len() - i,
{
    let n = s.unicode_len();
    let j = find_char_exec(s, i, ',');
    let ghost sub = s@.skip(i as int);
    proof {
        lemma_find_char(sub, ',');
        assert(sub.take(j - i) =~= s@.subrange(i as int, j as int));
    }
    let piece = s.substring_char(i, j);
    let ghost pre = out@;
    out.push(String::from_str(piece));
    proof {
        assert(strings_view(out@) =~= strings_view(pre).push(piece@));
    }
    if j >= n {
        proof {
            assert(sub.take(j - i) =~= sub);
            assert(spec_split_csv(sub) =~= seq![piece@]);
            assert(strings_view(out@) =~= strings_view(old(out)@) + spec_split_csv(sub));
        }
        return;
    }
    proof {
        assert(sub.skip((j - i) + 1) =~= s@.skip(j + 1));
    }
    split_csv_rec(s, j + 1, out);
    proof {
        assert(spec_split_csv(sub) =~= seq![piece@] + spec_split_csv(s@.skip(j + 1)));
        assert(strings_view(out@) =~= strings_view(old(out)@) + spec_split_csv(sub));
    }
}

/// Splits a comma-separated list of package prefixes.
pub fn split_csv(s: &str) -> (r: Vec<String>)
    ensures
        strings_view(r@) == spec_split_csv(s@),
{
    let mut out: Vec<String> = Vec::new();
    proof {
        assert(s@.skip(0) =~= s@);
    }
    split_csv_rec(s, 0, &mut out);
    proof {
        assert(strings_view(Seq::<String>::empty()) =~= Seq::<Seq<char>>::empty());
        assert(strings_view(out@) =~= spec_split_csv(s@));
    }
    out
}

// ---------------------------------------------------------------------------
// Substring searching
// ---------------------------------------------------------------------------
/// Index of the first position where `pat` occurs in `s`, or -1.
pub open spec fn find_sub(s: Seq<char>, pat: Seq<char>) -> int
    decreases s.len(),
{
    if pat.is_prefix_of(s) {
        0
    } else if s.len() == 0 {
        -1
    } else {
        let r = find_sub(s.drop_first(), pat);
        if r < 0 {
            -1
        } else {
            1 + r
        }
    }
}

pub proof fn lemma_find_sub(s: Seq<char>, pat: Seq<char>)
    ensures
        -1 <= find_sub(s, pat) <= s.len(),
        find_sub(s, pat) >= 0 ==> pat.is_prefix_of(s.skip(find_sub(s, pat))) && find_sub(s, pat)
            + pat.len() <= s.len(),
        forall|m: int| 0 <= m < find_sub(s, pat) ==> !pat.is_prefix_of(s.skip(m)),
        find_sub(s, pat) < 0 ==> forall|m: int|
            0 <= m <= s.len() ==> !pat.is_prefix_of(#[trigger] s.skip(m)),
    decreases s.len(),
{
    if pat.is_prefix_of(s) {
        assert(s.skip(0) =~= s);
    } else if s.len() == 0 {
        assert forall|m: int| 0 <= m <= s.len() implies !pat.is_prefix_of(#[trigger] s.skip(m)) by {
            assert(s.skip(m) =~= s);
        }
    } else {
        lemma_find_sub(s.drop_first(), pat);
        let r = find_sub(s.drop_first(), pat);
        assert(s.skip(0) =~= s);
        assert forall|m: int| 1 <= m <= s.len() implies s.skip(m) =~= s.drop_first().skip(
            m - 1,
        ) by {}
        if r >= 0 {
            assert(s.skip(r + 1) == s.drop_first().skip(r));
            assert forall|m: int| 0 <= m < find_sub(s, pat) implies !pat.is_prefix_of(
                s.skip(m),
            ) by {
                if m > 0 {
                    assert(s.skip(m) == s.drop_first().skip(m - 1));
                }
            }
        } else {
            assert forall|m: int| 0 <= m <= s.len() implies !pat.is_prefix_of(
                #[trigger] s.skip(m),
            ) by {
                if m > 0 {
                    assert(s.skip(m) == s.drop_first().skip(m - 1));
                }
            }
        }
    }
}

pub proof fn lemma_find_sub_first(s: Seq<char>, pat: Seq<char>, k: int)
    requires
        0 <= k <= s.len(),
        pat.is_prefix_of(s.skip(k)),
        forall|m: int| 0 <= m < k ==> !pat.is_prefix_of(#[trigger] s.skip(m)),
    ensures
        find_sub(s, pat) == k,
    decreases s.len(),
{
    if pat.is_prefix_of(s) {
        assert(s.skip(0) =~= s);
        if k > 0 {
            assert(!pat.is_prefix_of(s.skip(0)));
        }
    } else {
        assert(s.skip(0) =~= s);
        assert(k > 0);
        assert(s.len() > 0);
        assert(s.skip(k) =~= s.drop_first().skip(k - 1));
        assert forall|m: int| 0 <= m < k - 1 implies !pat.is_prefix_of(
            #[trigger] s.drop_first().skip(m),
        ) by {
            assert(s.skip(m + 1) =~= s.drop_first().skip(m));
            assert(!pat.is_prefix_of(s.skip(m + 1)));
        }
        lemma_find_sub_first(s.drop_first(), pat, k - 1);
    }
}

/// Whether `pat` occurs at position `i` of `s`.
fn is_prefix_at(s: &str, i: usize, pat: &str) -> (r: bool)
    requires
        i <= s@.len(),
    ensures
        r == pat@.is_prefix_of(s@.skip(i as int)),
{
    let n = s.unicode_len();
    let m = pat.unicode_len();
    if n - i < m {
        return false;
    }
    let mut k: usize = 0;
    while k < m
        invariant
            k <= m,
            m == pat@.len(),
            n == s@.len(),
            i <= n,
            m <= n - i,
            forall|t: int| 0 <= t < k ==> s@[i + t] == pat@[t],
        decreases m - k,
    {
        if s.get_char(i + k) != pat.get_char(k) {
            proof {
                assert(s@.skip(i as int)[k as int] == s@[i + k]);
                assert(!pat@.is_prefix_of(s@.skip(i as int)));
            }
            return false;
        }
        k = k + 1;
    }
    proof {
        assert forall|t: int| 0 <= t < m implies s@.skip(i as int)[t] == pat@[t] by {
            assert(s@.skip(i as int)[t] == s@[i + t]);
        }
        assert(s@.skip(i as int).take(m as int) =~= pat@);
    }
    true
}

/// Position of the first occurrence of `pat` at or after `i`, if any.
fn find_sub_exec(s: &str, i: usize, pat: &str) -> (r: Option<usize>)
    requires
        i <= s@.len(),
    ensures
        match r {
            Some(j) => i <= j && j - i == find_sub(s@.skip(i as int), pat@) && j + pat@.len()
                <= s@.len(),
            None => find_sub(s@.skip(i as int), pat@) < 0,
        },
{
    let n = s.unicode_len();
    let ghost sub = s@.skip(i as int);
    let mut j: usize = i;
    while j < n
        invariant
            i <= j <= n,
            n == s@.len(),
            sub == s@.skip(i as int),
            forall|m: int| 0 <= m < j - i ==> !pat@.is_prefix_of(#[trigger] sub.skip(m)),
        decreases n - j,
    {
        if is_prefix_at(s, j, pat) {
            proof {
                assert(s@.skip(j as int) =~= sub.skip(j - i));
                lemma_find_sub_first(sub, pat@, j - i);
                lemma_find_sub(sub, pat@);
            }
            return Some(j);
        }
        proof {
            assert(s@.skip(j as int) =~= sub.skip(j - i));
        }
        j = j + 1;
    }
    if is_prefix_at(s, n, pat) {
        proof {
            assert(s@.skip(n as int) =~= sub.skip(n - i));
            lemma_find_sub_first(sub, pat@, n - i);
            lemma_find_sub(sub, pat@);
        }
        return Some(n);
    }
    proof {
        assert(s@.skip(n as int) =~= sub.skip(n - i));
        lemma_find_sub(sub, pat@);
        if find_sub(sub, pat@) >= 0 {
            assert(pat@.is_prefix_of(sub.skip(find_sub(sub, pat@))));
        }
    }
    None
}

// ---------------------------------------------------------------------------
// The Java analyzer's output: `caller -> callee` lines
// ---------------------------------------------------------------------------
/// The separator between caller and callee.
pub open spec fn arrow() -> Seq<char> {
    seq![' ', '-', '>', ' ']
}

/// `s` with every space removed.
pub open spec fn remove_spaces(s: Seq<char>) -> Seq<char>
    decreases s.len(),
{
    if s.len() == 0 {
        Seq::empty()
    } else {
        (if s[0] == ' ' {
            Seq::empty()
        } else {
            seq![s[0]]
        }) + remove_spaces(s.drop_first())
    }
}

proof fn lemma_remove_spaces_snoc(s: Seq<char>, c: char)
    ensures
        remove_spaces(s.push(c)) == remove_spaces(s) + (if c == ' ' {
            Seq::<char>::empty()
        } else {
            seq![c]
        }),
    decreases s.len(),
{
    let tail: Seq<char> = if c == ' ' {
        Seq::empty()
    } else {
        seq![c]
    };
    if s.len() == 0 {
        reveal_with_fuel(remove_spaces, 3);
        assert(s.push(c)[0] == c);
        assert(s.push(c).drop_first() =~= Seq::<char>::empty());
        assert(remove_spaces(s.push(c)) =~= tail);
        assert(remove_spaces(s) + tail =~= tail);
    } else {
        assert(s.push(c)[0] == s[0]);
        assert(s.push(c).drop_first() =~= s.drop_first().push(c));
        lemma_remove_spaces_snoc(s.drop_first(), c);
        let head: Seq<char> = if s[0] == ' ' {
            Seq::empty()
        } else {
            seq![s[0]]
        };
        assert(remove_spaces(s.push(c)) == head + (remove_spaces(s.drop_first()) + tail));
        assert(head + (remove_spaces(s.drop_first()) + tail) =~= (head + remove_spaces(
            s.drop_first(),
        )) + tail);
    }
}

fn remove_spaces_exec(s: &str) -> (r: String)
    ensures
        r@ == remove_spaces(s@),
{
    let n = s.unicode_len();
    let mut out = String::new();
    let mut i: usize = 0;
    while i < n
        invariant
            i <= n,
            n == s@.len(),
            out@ == remove_spaces(s@.take(i as int)),
        decreases n - i,
    {
        let c = s.get_char(i);
        if c != ' ' {
            push_char(&mut out, c);
        }
        proof {
            assert(s@.take(i as int).push(s@[i as int]) =~= s@.take(i as int + 1));
            lemma_remove_spaces_snoc(s@.take(i as int), s@[i as int]);
            assert(out@ =~= remove_spaces(s@.take(i as int + 1)));
        }
        i = i + 1;
    }
    proof {
        assert(s@.take(n as int) =~= s@);
    }
    out
}

/// The relation one line of the Java analyzer's output denotes, if any: the
/// line must hold exactly one ` -> `; the caller is the left part with
/// spaces removed, the callee the right part up to its first space.
pub open spec fn spec_jdeps_line(line: Seq<char>, project_id: Seq<char>) -> Option<DrV> {
    let i = find_sub(line, arrow());
    if i < 0 {
        None
    } else {
        let head = line.take(i);
        let tail = line.skip(i + 4);
        if find_sub(tail, arrow()) >= 0 {
            None
        } else {
            let target = tail.take(find_char(tail, ' '));
            Some(DrV { source: remove_spaces(head), target, project_id })
        }
    }
}

#[verifier::rlimit(100)]
fn parse_jdeps_line(project_id: &str, line: &str) -> (r: Option<Dr>)
    ensures
        match r {
            Some(d) => spec_jdeps_line(line@, project_id@) == Some(d@),
            None => spec_jdeps_line(line@, project_id@) is None,
        },
{
    proof {
        reveal_strlit(" -> ");
        assert(" -> "@ =~= arrow());
        assert(line@.skip(0) =~= line@);
    }
    let n = line.unicode_len();
    let i = match find_sub_exec(line, 0, " -> ") {
        Some(j) => j,
        None => {
            return None;
        },
    };
    proof {
        lemma_find_sub(line@, arrow());
        assert(line@.take(i as int) =~= line@.subrange(0, i as int));
    }
    let head = line.substring_char(0, i);
    let tail = line.substring_char(i + 4, n);
    proof {
        assert(tail@ =~= line@.skip(i as int + 4));
        assert(tail@.skip(0) =~= tail@);
    }
    match find_sub_exec(tail, 0, " -> ") {
        Some(_) => {
            return None;
        },
        None => {},
    }
    let sp_i = find_char_exec(tail, 0, ' ');
    proof {
        assert(tail@.take(sp_i as int) =~= tail@.subrange(0, sp_i as int));
    }
    let target = tail.substring_char(0, sp_i);
    Some(
        Dr {
            source: remove_spaces_exec(head),
            target: String::from_str(target),
            project_id: String::from_str(project_id),
        },
    )
}

/// The relations the whole Java analyzer output denotes: lines that do not
/// parse are skipped.
pub open spec fn collect_jdeps(lines: Seq<Seq<char>>, project_id: Seq<char>) -> Seq<DrV>
    decreases lines.len(),
{
    if lines.len() == 0 {
        Seq::empty()
    } else {
        (match spec_jdeps_line(lines[0], project_id) {
            Some(d) => seq![d],
            None => Seq::empty(),
        }) + collect_jdeps(lines.drop_first(), project_id)
    }
}

pub open spec fn spec_parse_jdeps(project_id: Seq<char>, text: Seq<char>) -> Seq<DrV> {
    collect_jdeps(spec_lines(text), project_id)
}

fn collect_jdeps_rec(project_id: &str, lines: &Vec<String>, i: usize, out: &mut Vec<Dr>)
    requires
        i <= lines@.len(),
    ensures
        drs_view(final(out)@) == drs_view(old(out)@) + collect_jdeps(
            strings_view(lines@).skip(i as int),
            project_id@,
        ),
    decreases lines@.len() - i,
{
    let ghost lv = strings_view(lines@);
    let n = lines.len();
    if i >= n {
        proof {
            assert(lv.skip(i as int).len() == 0);
            assert(drs_view(out@) =~= drs_view(old(out)@) + collect_jdeps(
                lv.skip(i as int),
                project_id@,
            ));
        }
        return;
    }
    proof {
        assert(lv.skip(i as int)[0] == lv[i as int]);
        assert(lv[i as int] == lines@[i as int]@);
        assert(lv.skip(i as int).drop_first() =~= lv.skip(i as int + 1));
    }
    let ghost pre = out@;
    match parse_jdeps_line(project_id, lines[i].as_str()) {
        Some(d) => {
            out.push(d);
            proof {
                assert(drs_view(out@) =~= drs_view(pre).push(out@.last()@));
            }
        },
        None => {},
    }
    collect_jdeps_rec(project_id, lines, i + 1, out);
    proof {
        assert(drs_view(out@) =~= drs_view(old(out)@) + collect_jdeps(
            lv.skip(i as int),
            project_id@,
        ));
    }
}

/// Decodes the Java analyzer's output: one relation per `caller -> callee`
/// line, with the project id attached.
pub fn parse_jdeps_output(project_id: &str, text: &str) -> (r: Vec<Dr>)
    ensures
        drs_view(r@) == spec_parse_jdeps(project_id@, text@),
{
    let lines = split_lines(text);
    let mut out: Vec<Dr> = Vec::new();
    proof {
        assert(strings_view(lines@).skip(0) =~= strings_view(lines@));
        assert(drs_view(Seq::<Dr>::empty()) =~= Seq::<DrV>::empty());
    }
    collect_jdeps_rec(project_id, &lines, 0, &mut out);
    proof {
        assert(drs_view(out@) =~= spec_parse_jdeps(project_id@, text@));
    }
    out
}

// ---------------------------------------------------------------------------
// The Go analyzer's output: one JSON object per line
// ---------------------------------------------------------------------------
/// The relation one line of the Go analyzer's output denotes, if any: a JSON
/// object of strings holding exactly the keys `caller` and `callee` (a
/// repeated key keeps its last value), with nothing but whitespace after it.
pub open spec fn spec_go_line(line: Seq<char>, project_id: Seq<char>) -> Option<DrV> {
    match crate::codec::parse_strmap(line) {
        None => None,
        Some((pairs, rest)) => {
            if skip_ws(rest).len() != 0 {
                None
            } else {
                let m = crate::codec::attrs_from_pairs(pairs);
                if m.len() == 2 && crate::attrs::attrs_lookup(m, "caller"@) is Some
                    && crate::attrs::attrs_lookup(m, "callee"@) is Some {
                    Some(
                        DrV {
                            source: crate::attrs::attrs_lookup(m, "caller"@)->0,
                            target: crate::attrs::attrs_lookup(m, "callee"@)->0,
                            project_id,
                        },
                    )
                } else {
                    None
                }
            }
        },
    }
}

fn parse_go_line(project_id: &str, line: &str) -> (r: Option<Dr>)
    ensures
        match r {
            Some(d) => spec_go_line(line@, project_id@) == Some(d@),
            None => spec_go_line(line@, project_id@) is None,
        },
{
    proof {
        assert(line@.skip(0) =~= line@);
    }
    let n = line.unicode_len();
    let (m, j) = match crate::codec::parse_strmap_exec(line, 0) {
        Some(p) => p,
        None => {
            return None;
        },
    };
    let j2 = crate::json::skip_ws_exec(line, j);
    if j2 < n {
        proof {
            assert(skip_ws(line@.skip(j as int)).len() > 0);
        }
        return None;
    }
    proof {
        assert(skip_ws(line@.skip(j as int)) =~= line@.skip(j2 as int));
        assert(skip_ws(line@.skip(j as int)).len() == 0);
    }
    if m.len() != 2 {
        return None;
    }
    let caller = match m.get("caller") {
        Some(v) => v,
        None => {
            return None;
        },
    };
    let callee = match m.get("callee") {
        Some(v) => v,
        None => {
            return None;
        },
    };
    Some(
        Dr {
            source: caller,
            target: callee,
            project_id: String::from_str(project_id),
        },
    )
}

pub open spec fn collect_go(lines: Seq<Seq<char>>, project_id: Seq<char>) -> Seq<DrV>
    decreases lines.len(),
{
    if lines.len() == 0 {
        Seq::empty()
    } else {
        (match spec_go_line(lines[0], project_id) {
            Some(d) => seq![d],
            None => Seq::empty(),
        }) + collect_go(lines.drop_first(), project_id)
    }
}

pub open spec fn spec_parse_go(project_id: Seq<char>, text: Seq<char>) -> Seq<DrV> {
    collect_go(spec_lines(text), project_id)
}

fn collect_go_rec(project_id: &str, lines: &Vec<String>, i: usize, out: &mut Vec<Dr>)
    requires
        i <= lines@.len(),
    ensures
        drs_view(final(out)@) == drs_view(old(out)@) + collect_go(
            strings_view(lines@).skip(i as int),
            project_id@,
        ),
    decreases lines@.len() - i,
{
    let ghost lv = strings_view(lines@);
    let n = lines.len();
    if i >= n {
        proof {
            assert(lv.skip(i as int).len() == 0);
            assert(drs_view(out@) =~= drs_view(old(out)@) + collect_go(
                lv.skip(i as int),
                project_id@,
            ));
        }
        return;
    }
    proof {
        assert(lv.skip(i as int)[0] == lv[i as int]);
        assert(lv[i as int] == lines@[i as int]@);
        assert(lv.skip(i as int).drop_first() =~= lv.skip(i as int + 1));
    }
    let ghost pre = out@;
    match parse_go_line(project_id, lines[i].as_str()) {
        Some(d) => {
            out.push(d);
            proof {
                assert(drs_view(out@) =~= drs_view(pre).push(out@.last()@));
            }
        },
        None => {},
    }
    collect_go_rec(project_id, lines, i + 1, out);
    proof {
        assert(drs_view(out@) =~= drs_view(old(out)@) + collect_go(
            lv.skip(i as int),
            project_id@,
        ));
    }
}

/// Decodes the Go analyzer's output: one relation per line that holds a
/// `caller`/`callee` JSON object; other lines are skipped.
pub fn parse_go_reader_output(project_id: &str, text: &str) -> (r: Vec<Dr>)
    ensures
        drs_view(r@) == spec_parse_go(project_id@, text@),
{
    let lines = split_lines(text);
    let mut out: Vec<Dr> = Vec::new();
    proof {
        assert(strings_view(lines@).skip(0) =~= strings_view(lines@));
        assert(drs_view(Seq::<Dr>::empty()) =~= Seq::<DrV>::empty());
    }
    collect_go_rec(project_id, &lines, 0, &mut out);
    proof {
        assert(drs_view(out@) =~= spec_parse_go(project_id@, text@));
    }
    out
}

// ---------------------------------------------------------------------------
// Filtering dependency relations
// ---------------------------------------------------------------------------
/// Whether some listed prefix starts `item`.
pub open spec fn spec_is_start_with(item: Seq<char>, sources: Seq<Seq<char>>) -> bool {
    exists|i: int| 0 <= i < sources.len() && (#[trigger] sources[i]).is_prefix_of(item)
}

pub fn is_start_with(item: &String, sources: &Vec<&str>) -> (r: bool)
    ensures
        r == spec_is_start_with(item@, strs_view(sources@)),
{
    let n = sources.len();
    let mut i: usize = 0;
    while i < n
        invariant
            i <= n,
            n == sources@.len(),
            forall|j: int|
                0 <= j < i ==> !(#[trigger] strs_view(sources@)[j]).is_prefix_of(item@),
        decreases n - i,
    {
        let it: &str = item.as_str();
        proof {
            assert(strs_view(sources@)[i as int] == sources@[i as int]@);
            assert(it@.skip(0) =~= item@);
        }
        if is_prefix_at(it, 0, sources[i]) {
            return true;
        }
        i = i + 1;
    }
    false
}

/// A relation is kept when its source lies under one of the listed prefixes
/// and its target does not.
pub open spec fn spec_keeps(d: DrV, sources: Seq<Seq<char>>) -> bool {
    !spec_is_start_with(d.target, sources) && spec_is_start_with(d.source, sources)
}

pub open spec fn spec_filter_drs(ds: Seq<DrV>, sources: Seq<Seq<char>>) -> Seq<DrV>
    decreases ds.len(),
{
    if ds.len() == 0 {
        Seq::empty()
    } else {
        (if spec_keeps(ds[0], sources) {
            seq![ds[0]]
        } else {
            Seq::empty()
        }) + spec_filter_drs(ds.drop_first(), sources)
    }
}

fn filter_drs_rec(drs: &Vec<Dr>, i: usize, sources: &Vec<&str>, out: &mut Vec<Dr>)
    requires
        i <= drs@.len(),
    ensures
        drs_view(final(out)@) == drs_view(old(out)@) + spec_filter_drs(
            drs_view(drs@).skip(i as int),
            strs_view(sources@),
        ),
    decreases drs@.len() - i,
{
    let ghost dv = drs_view(drs@);
    let ghost sv = strs_view(sources@);
    let n = drs.len();
    if i >= n {
        proof {
            assert(dv.skip(i as int).len() == 0);
            assert(drs_view(out@) =~= drs_view(old(out)@) + spec_filter_drs(
                dv.skip(i as int),
                sv,
            ));
        }
        return;
    }
    proof {
        assert(dv.skip(i as int)[0] == dv[i as int]);
        assert(dv[i as int] == drs@[i as int]@);
        assert(dv.skip(i as int).drop_first() =~= dv.skip(i as int + 1));
    }
    let ghost pre = out@;
    let keep = !is_start_with(&drs[i].target, sources) && is_start_with(&drs[i].source, sources);
    if keep {
        let copy = Dr {
            source: drs[i].source.clone(),
            target: drs[i].target.clone(),
            project_id: drs[i].project_id.clone(),
        };
        out.push(copy);
        proof {
            assert(drs_view(out@) =~= drs_view(pre).push(out@.last()@));
        }
    }
    filter_drs_rec(drs, i + 1, sources, out);
    proof {
        assert(drs_view(out@) =~= drs_view(old(out)@) + spec_filter_drs(dv.skip(i as int), sv));
    }
}

/// Keeps the relations whose source lies under one of the listed prefixes
/// and whose target does not, preserving order.
pub fn filter_drs(drs: &Vec<Dr>, sources: &Vec<&str>) -> (r: Vec<Dr>)
    ensures
        drs_view(r@) == spec_filter_drs(drs_view(drs@), strs_view(sources@)),
{
    let mut out: Vec<Dr> = Vec::new();
    proof {
        assert(drs_view(drs@).skip(0) =~= drs_view(drs@));
        assert(drs_view(Seq::<Dr>::empty()) =~= Seq::<DrV>::empty());
    }
    filter_drs_rec(drs, 0, sources, &mut out);
    proof {
        assert(drs_view(out@) =~= spec_filter_drs(drs_view(drs@), strs_view(sources@)));
    }
    out
}

} // verus!
