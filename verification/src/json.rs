//! Character-level JSON primitives: string escaping and unescaping, and
//! whitespace handling, each as a specification over `Seq<char>` with an
//! executable mirror.
//!
//! The accepted string grammar is JSON's: a quoted run of characters in which
//! `"` and `\` and control characters are escaped; the short escapes
//! `\" \\ \/ \b \f \n \r \t` and `\uXXXX` (for a non-surrogate code point)
//! are understood.  The writer escapes `"` and `\` and writes control
//! characters as `\u00XX`; every other character is written as itself.

use vstd::prelude::*;

use crate::strings::push_char;

verus! {

broadcast use vstd::utf8::char_u32_cast;

// ---------------------------------------------------------------------------
// Writing
// ---------------------------------------------------------------------------
/// Lower-case hex digit for `d < 16`.
pub open spec fn hex_digit(d: nat) -> char {
    if d == 0 {
        '0'
    } else if d == 1 {
        '1'
    } else if d == 2 {
        '2'
    } else if d == 3 {
        '3'
    } else if d == 4 {
        '4'
    } else if d == 5 {
        '5'
    } else if d == 6 {
        '6'
    } else if d == 7 {
        '7'
    } else if d == 8 {
        '8'
    } else if d == 9 {
        '9'
    } else if d == 10 {
        'a'
    } else if d == 11 {
        'b'
    } else if d == 12 {
        'c'
    } else if d == 13 {
        'd'
    } else if d == 14 {
        'e'
    } else {
        'f'
    }
}

/// How one character is written inside a JSON string.
pub open spec fn esc_char(c: char) -> Seq<char> {
    if c == '"' {
        seq!['\\', '"']
    } else if c == '\\' {
        seq!['\\', '\\']
    } else if (c as u32) < 32 {
        seq!['\\', 'u', '0', '0', hex_digit(((c as u32) / 16) as nat), hex_digit(
            ((c as u32) % 16) as nat,
        )]
    } else {
        seq![c]
    }
}

/// The escaped body of a JSON string.
pub open spec fn esc_str(s: Seq<char>) -> Seq<char>
    decreases s.len(),
{
    if s.len() == 0 {
        Seq::empty()
    } else {
        esc_char(s[0]) + esc_str(s.drop_first())
    }
}

/// A complete JSON string token for `s`: quote, escaped body, quote.
pub open spec fn quot(s: Seq<char>) -> Seq<char> {
    seq!['"'] + esc_str(s) + seq!['"']
}

pub proof fn lemma_esc_str_snoc(s: Seq<char>, c: char)
    ensures
        esc_str(s.push(c)) == esc_str(s) + esc_char(c),
    decreases s.len(),
{
    if s.len() == 0 {
        reveal_with_fuel(esc_str, 3);
        assert(s.push(c)[0] == c);
        assert(s.push(c).drop_first() =~= Seq::<char>::empty());
        assert(esc_str(s.push(c)) =~= esc_char(c));
        assert(esc_str(s) + esc_char(c) =~= esc_char(c));
    } else {
        assert(s.push(c)[0] == s[0]);
        assert(s.push(c).drop_first() =~= s.drop_first().push(c));
        lemma_esc_str_snoc(s.drop_first(), c);
        assert(esc_str(s.push(c)) == esc_char(s[0]) + (esc_str(s.drop_first()) + esc_char(c)));
        assert(esc_char(s[0]) + (esc_str(s.drop_first()) + esc_char(c)) =~= (esc_char(s[0])
            + esc_str(s.drop_first())) + esc_char(c));
    }
}

fn hex_digit_exec(d: u32) -> (c: char)
    requires
        d < 16,
    ensures
        c == hex_digit(d as nat),
{
    match d {
        0 => '0',
        1 => '1',
        2 => '2',
        3 => '3',
        4 => '4',
        5 => '5',
        6 => '6',
        7 => '7',
        8 => '8',
        9 => '9',
        10 => 'a',
        11 => 'b',
        12 => 'c',
        13 => 'd',
        14 => 'e',
        _ => 'f',
    }
}

/// Appends the escaped form of `c` to `out`.
fn push_escaped(out: &mut String, c: char)
    ensures
        final(out)@ == old(out)@ + esc_char(c),
{
    if c == '"' {
        push_char(out, '\\');
        push_char(out, '"');
        proof {
            assert(out@ =~= old(out)@ + esc_char(c));
        }
    } else if c == '\\' {
        push_char(out, '\\');
        push_char(out, '\\');
        proof {
            assert(out@ =~= old(out)@ + esc_char(c));
        }
    } else {
        let u = c as u32;
        if u < 32 {
            push_char(out, '\\');
            push_char(out, 'u');
            push_char(out, '0');
            push_char(out, '0');
            push_char(out, hex_digit_exec(u / 16));
            push_char(out, hex_digit_exec(u % 16));
            proof {
                assert(out@ =~= old(out)@ + esc_char(c));
            }
        } else {
            push_char(out, c);
            proof {
                assert(out@ =~= old(out)@ + esc_char(c));
            }
        }
    }
}

/// Appends the complete JSON string token for `s` to `out`.
pub fn write_json_string(out: &mut String, s: &str)
    ensures
        final(out)@ == old(out)@ + quot(s@),
{
    push_char(out, '"');
    let n = s.unicode_len();
    let mut i: usize = 0;
    while i < n
        invariant
            i <= n,
            n == s@.len(),
            out@ == old(out)@ + seq!['"'] + esc_str(s@.take(i as int)),
        decreases n - i,
    {
        let c = s.get_char(i);
        push_escaped(out, c);
        proof {
            assert(s@.take(i as int).push(s@[i as int]) =~= s@.take(i as int + 1));
            lemma_esc_str_snoc(s@.take(i as int), s@[i as int]);
            assert((old(out)@ + seq!['"'] + esc_str(s@.take(i as int))) + esc_char(s@[i as int])
                =~= old(out)@ + seq!['"'] + esc_str(s@.take(i as int + 1)));
        }
        i = i + 1;
    }
    push_char(out, '"');
    proof {
        assert(s@.take(n as int) =~= s@);
        assert(out@ =~= old(out)@ + quot(s@));
    }
}

// ---------------------------------------------------------------------------
// Reading
// ---------------------------------------------------------------------------
pub open spec fn is_ws_char(c: char) -> bool {
    c == ' ' || c == '\n' || c == '\t' || c == '\r'
}

/// The suffix of `s` after its leading whitespace.
pub open spec fn skip_ws(s: Seq<char>) -> Seq<char>
    decreases s.len(),
{
    if s.len() > 0 && is_ws_char(s[0]) {
        skip_ws(s.drop_first())
    } else {
        s
    }
}

pub proof fn lemma_skip_ws_len(s: Seq<char>)
    ensures
        skip_ws(s).len() <= s.len(),
        skip_ws(s).len() > 0 ==> !is_ws_char(skip_ws(s)[0]),
    decreases s.len(),
{
    if s.len() > 0 && is_ws_char(s[0]) {
        lemma_skip_ws_len(s.drop_first());
    }
}

/// Leading whitespace can be peeled off before parsing.
pub proof fn lemma_skip_ws_prepend(w: Seq<char>, rest: Seq<char>)
    requires
        forall|i: int| 0 <= i < w.len() ==> is_ws_char(#[trigger] w[i]),
    ensures
        skip_ws(w + rest) == skip_ws(rest),
    decreases w.len(),
{
    if w.len() == 0 {
        assert(w + rest =~= rest);
    } else {
        assert((w + rest)[0] == w[0]);
        assert((w + rest).drop_first() =~= w.drop_first() + rest);
        lemma_skip_ws_prepend(w.drop_first(), rest);
    }
}

/// A sequence that does not start with whitespace passes through `skip_ws`.
pub proof fn lemma_skip_ws_noop(s: Seq<char>)
    requires
        s.len() > 0 ==> !is_ws_char(s[0]),
    ensures
        skip_ws(s) == s,
{
}

/// Value of a hex digit character, or -1.
pub open spec fn hex_val(c: char) -> int {
    let u = c as u32;
    if 48 <= u <= 57 {
        u - 48
    } else if 97 <= u <= 102 {
        u - 87
    } else if 65 <= u <= 70 {
        u - 55
    } else {
        -1
    }
}

pub proof fn lemma_hex_of_digit(d: nat)
    requires
        d < 16,
    ensures
        hex_val(hex_digit(d)) == d,
{
}

/// The character a short escape denotes.
pub open spec fn unesc_short(e: char) -> Option<char> {
    if e == '"' {
        Some('"')
    } else if e == '\\' {
        Some('\\')
    } else if e == '/' {
        Some('/')
    } else if e == 'b' {
        Some('\u{8}')
    } else if e == 'f' {
        Some('\u{c}')
    } else if e == 'n' {
        Some('\n')
    } else if e == 'r' {
        Some('\r')
    } else if e == 't' {
        Some('\t')
    } else {
        None
    }
}

/// A code point that a `char` can hold.
pub open spec fn is_scalar_value(v: u32) -> bool {
    v < 0xD800 || (0xE000 <= v && v <= 0x10FFFF)
}

/// Parses the remainder of a JSON string after the opening quote: returns the
/// decoded content and the suffix after the closing quote.
pub open spec fn parse_str_rest(s: Seq<char>) -> Option<(Seq<char>, Seq<char>)>
    decreases s.len(),
{
    if s.len() == 0 {
        None
    } else if s[0] == '"' {
        Some((Seq::empty(), s.drop_first()))
    } else if s[0] == '\\' {
        if s.len() < 2 {
            None
        } else if s[1] == 'u' {
            if s.len() < 6 {
                None
            } else {
                let h0 = hex_val(s[2]);
                let h1 = hex_val(s[3]);
                let h2 = hex_val(s[4]);
                let h3 = hex_val(s[5]);
                if h0 < 0 || h1 < 0 || h2 < 0 || h3 < 0 {
                    None
                } else {
                    let v = (h0 * 4096 + h1 * 256 + h2 * 16 + h3) as u32;
                    if !is_scalar_value(v) {
                        None
                    } else {
                        match parse_str_rest(s.skip(6)) {
                            Some(p) => Some((seq![v as char] + p.0, p.1)),
                            None => None,
                        }
                    }
                }
            }
        } else {
            match unesc_short(s[1]) {
                Some(c) => match parse_str_rest(s.skip(2)) {
                    Some(p) => Some((seq![c] + p.0, p.1)),
                    None => None,
                },
                None => None,
            }
        }
    } else if (s[0] as u32) < 32 {
        None
    } else {
        match parse_str_rest(s.drop_first()) {
            Some(p) => Some((seq![s[0]] + p.0, p.1)),
            None => None,
        }
    }
}

pub proof fn lemma_parse_str_rest_len(s: Seq<char>)
    ensures
        parse_str_rest(s) matches Some(p) ==> p.1.len() < s.len(),
    decreases s.len(),
{
    if s.len() == 0 {
    } else if s[0] == '"' {
    } else if s[0] == '\\' {
        if s.len() >= 6 && s[1] == 'u' {
            lemma_parse_str_rest_len(s.skip(6));
        }
        if s.len() >= 2 && s[1] != 'u' {
            lemma_parse_str_rest_len(s.skip(2));
        }
    } else {
        lemma_parse_str_rest_len(s.drop_first());
    }
}

/// Parses a JSON string token after optional leading whitespace: returns the
/// decoded content and the suffix after the closing quote.
pub open spec fn parse_string(s: Seq<char>) -> Option<(Seq<char>, Seq<char>)> {
    let t = skip_ws(s);
    if t.len() > 0 && t[0] == '"' {
        parse_str_rest(t.drop_first())
    } else {
        None
    }
}

pub proof fn lemma_parse_string_len(s: Seq<char>)
    ensures
        parse_string(s) matches Some(p) ==> p.1.len() < s.len(),
{
    lemma_skip_ws_len(s);
    let t = skip_ws(s);
    if t.len() > 0 && t[0] == '"' {
        lemma_parse_str_rest_len(t.drop_first());
    }
}

// ---------------------------------------------------------------------------
// Executable mirrors
// ---------------------------------------------------------------------------
/// Relies on `char::from_u32`: returns the character for any valid Unicode
/// scalar value, and that character casts back to the same number.
#[verifier::external_body]
fn char_from_scalar(v: u32) -> (c: char)
    requires
        is_scalar_value(v),
    ensures
        c as u32 == v,
{
    match char::from_u32(v) {
        Some(c) => c,
        None => ' ',
    }
}

fn hex_val_exec(c: char) -> (r: Option<u32>)
    ensures
        match r {
            Some(d) => hex_val(c) == d && d < 16,
            None => hex_val(c) < 0,
        },
{
    let u = c as u32;
    if 48 <= u && u <= 57 {
        Some(u - 48)
    } else if 97 <= u && u <= 102 {
        Some(u - 87)
    } else if 65 <= u && u <= 70 {
        Some(u - 55)
    } else {
        None
    }
}

fn unesc_short_exec(e: char) -> (r: Option<char>)
    ensures
        r == unesc_short(e),
{
    if e == '"' {
        Some('"')
    } else if e == '\\' {
        Some('\\')
    } else if e == '/' {
        Some('/')
    } else if e == 'b' {
        Some('\u{8}')
    } else if e == 'f' {
        Some('\u{c}')
    } else if e == 'n' {
        Some('\n')
    } else if e == 'r' {
        Some('\r')
    } else if e == 't' {
        Some('\t')
    } else {
        None
    }
}

/// Advances `i` past leading whitespace.
pub fn skip_ws_exec(s: &str, i: usize) -> (j: usize)
    requires
        i <= s@.len(),
    ensures
        i <= j <= s@.len(),
        s@.skip(j as int) == skip_ws(s@.skip(i as int)),
{
    let n = s.unicode_len();
    let mut j: usize = i;
    while j < n
        invariant
            i <= j <= n,
            n == s@.len(),
            skip_ws(s@.skip(i as int)) == skip_ws(s@.skip(j as int)),
        decreases n - j,
    {
        let c = s.get_char(j);
        if !(c == ' ' || c == '\n' || c == '\t' || c == '\r') {
            proof {
                lemma_skip_ws_noop(s@.skip(j as int));
            }
            return j;
        }
        proof {
            assert(s@.skip(j as int)[0] == s@[j as int]);
            assert(s@.skip(j as int).drop_first() =~= s@.skip(j as int + 1));
        }
        j = j + 1;
    }
    proof {
        assert(s@.skip(n as int) =~= Seq::<char>::empty());
        lemma_skip_ws_noop(s@.skip(n as int));
    }
    j
}

/// Executable form of `parse_str_rest`, reading from position `i` (just after
/// the opening quote).  On success returns the decoded content and the
/// position just after the closing quote.
pub fn parse_str_rest_exec(s: &str, i: usize) -> (r: Option<(String, usize)>)
    requires
        i <= s@.len(),
    ensures
        match r {
            Some(p) => i <= p.1 <= s@.len() && parse_str_rest(s@.skip(i as int)) == Some(
                (p.0@, s@.skip(p.1 as int)),
            ),
            None => parse_str_rest(s@.skip(i as int)) is None,
        },
    decreases s@.len() - i,
{
    let ghost t = s@.skip(i as int);
    let n = s.unicode_len();
    if i >= n {
        return None;
    }
    let c = s.get_char(i);
    proof {
        assert(t[0] == s@[i as int]);
    }
    if c == '"' {
        proof {
            assert(t.drop_first() =~= s@.skip(i as int + 1));
        }
        return Some((String::new(), i + 1));
    }
    if c == '\\' {
        if n - i < 2 {
            return None;
        }
        let e = s.get_char(i + 1);
        proof {
            assert(t[1] == s@[i as int + 1]);
        }
        if e == 'u' {
            if n - i < 6 {
                return None;
            }
            proof {
                assert(t[2] == s@[i as int + 2]);
                assert(t[3] == s@[i as int + 3]);
                assert(t[4] == s@[i as int + 4]);
                assert(t[5] == s@[i as int + 5]);
            }
            let h0 = match hex_val_exec(s.get_char(i + 2)) {
                Some(d) => d,
                None => {
                    return None;
                },
            };
            let h1 = match hex_val_exec(s.get_char(i + 3)) {
                Some(d) => d,
                None => {
                    return None;
                },
            };
            let h2 = match hex_val_exec(s.get_char(i + 4)) {
                Some(d) => d,
                None => {
                    return None;
                },
            };
            let h3 = match hex_val_exec(s.get_char(i + 5)) {
                Some(d) => d,
                None => {
                    return None;
                },
            };
            let v = h0 * 4096 + h1 * 256 + h2 * 16 + h3;
            if 0xD800 <= v && v < 0xE000 {
                return None;
            }
            let c2 = char_from_scalar(v);
            proof {
                assert(t.skip(6) =~= s@.skip(i as int + 6));
            }
            match parse_str_rest_exec(s, i + 6) {
                Some(p) => {
                    let mut out = String::new();
                    push_char(&mut out, c2);
                    out.append(p.0.as_str());
                    proof {
                        assert(out@ =~= seq![v as char] + p.0@);
                    }
                    Some((out, p.1))
                },
                None => None,
            }
        } else {
            match unesc_short_exec(e) {
                Some(c2) => {
                    proof {
                        assert(t.skip(2) =~= s@.skip(i as int + 2));
                    }
                    match parse_str_rest_exec(s, i + 2) {
                        Some(p) => {
                            let mut out = String::new();
                            push_char(&mut out, c2);
                            out.append(p.0.as_str());
                            proof {
                                assert(out@ =~= seq![c2] + p.0@);
                            }
                            Some((out, p.1))
                        },
                        None => None,
                    }
                },
                None => None,
            }
        }
    } else if (c as u32) < 32 {
        None
    } else {
        proof {
            assert(t.drop_first() =~= s@.skip(i as int + 1));
        }
        match parse_str_rest_exec(s, i + 1) {
            Some(p) => {
                let mut out = String::new();
                push_char(&mut out, c);
                out.append(p.0.as_str());
                proof {
                    assert(out@ =~= seq![c] + p.0@);
                }
                Some((out, p.1))
            },
            None => None,
        }
    }
}

/// Executable form of `parse_string`: skips whitespace, then reads a complete
/// JSON string token.
pub fn parse_string_exec(s: &str, i: usize) -> (r: Option<(String, usize)>)
    requires
        i <= s@.len(),
    ensures
        match r {
            Some(p) => i <= p.1 <= s@.len() && parse_string(s@.skip(i as int)) == Some(
                (p.0@, s@.skip(p.1 as int)),
            ),
            None => parse_string(s@.skip(i as int)) is None,
        },
{
    let j = skip_ws_exec(s, i);
    let n = s.unicode_len();
    let ghost t = skip_ws(s@.skip(i as int));
    if j >= n {
        return None;
    }
    let c = s.get_char(j);
    proof {
        assert(t[0] == s@[j as int]);
    }
    if c != '"' {
        return None;
    }
    proof {
        assert(t.drop_first() =~= s@.skip(j as int + 1));
    }
    parse_str_rest_exec(s, j + 1)
}

} // verus!
