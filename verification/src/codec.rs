//! JSON reading and writing for attribute maps, connector instances, models,
//! and the persisted configuration.
//!
//! Every reader has an exact specification-level counterpart over
//! `Seq<char>`, and every writer's output is pinned character by character.
//! The model writer and reader are inverses: see the round-trip law at the
//! bottom of the module.

use vstd::prelude::*;

use crate::attrs::{attrs_upsert, attrs_wf, key_index, lemma_key_index, AttrMap, AttrsView};
use crate::json::{
    lemma_parse_string_len, lemma_skip_ws_len, parse_string, parse_string_exec, quot, skip_ws,
    skip_ws_exec, write_json_string,
};
use crate::model::{Ci, CiV, Component, ComponentV, Connector, ConnectorV, Model, ModelV};
use crate::strings::push_char;

verus! {

/// A raw list of key/value pairs read from a JSON object, in file order,
/// possibly with repeated keys.
pub type RawPairs = Seq<(Seq<char>, Seq<char>)>;

/// The attribute map a raw pair list denotes: pairs are folded in order and a
/// repeated key overwrites the value stored under it (last one wins).
pub open spec fn attrs_from_pairs(pairs: RawPairs) -> AttrsView
    decreases pairs.len(),
{
    if pairs.len() == 0 {
        Seq::empty()
    } else {
        attrs_upsert(attrs_from_pairs(pairs.drop_last()), pairs.last().0, pairs.last().1)
    }
}

/// On a list whose keys are already pairwise distinct the fold is the
/// identity.
pub proof fn lemma_attrs_from_pairs_id(pairs: RawPairs)
    requires
        attrs_wf(pairs),
    ensures
        attrs_from_pairs(pairs) == pairs,
    decreases pairs.len(),
{
    if pairs.len() > 0 {
        let pre = pairs.drop_last();
        assert(attrs_wf(pre)) by {
            assert(forall|i: int| 0 <= i < pre.len() ==> pre[i] == pairs[i]);
        }
        lemma_attrs_from_pairs_id(pre);
        lemma_key_index(pre, pairs.last().0);
        if key_index(pre, pairs.last().0) >= 0 {
            let ki = key_index(pre, pairs.last().0);
            assert(pairs[ki].0 == pairs[pairs.len() - 1].0);
            assert(false);
        }
        assert(attrs_from_pairs(pairs) == pre.push(pairs.last()));
        assert(pre.push(pairs.last()) =~= pairs);
    }
}

/// Parses the members of an object of strings, starting after the opening
/// brace (with at least one member): returns the raw pairs and the suffix
/// after the closing brace.
pub open spec fn parse_strmap_members(s: Seq<char>) -> Option<(RawPairs, Seq<char>)>
    decreases s.len(),
{
    match parse_string(s) {
        None => None,
        Some((k, r1)) => {
            let w = skip_ws(r1);
            if w.len() == 0 || w[0] != ':' {
                None
            } else {
                match parse_string(w.drop_first()) {
                    None => None,
                    Some((v, r2)) => {
                        let x = skip_ws(r2);
                        if x.len() == 0 {
                            None
                        } else if x[0] == ',' {
                            proof {
                                lemma_parse_string_len(s);
                                lemma_skip_ws_len(r1);
                                lemma_parse_string_len(w.drop_first());
                                lemma_skip_ws_len(r2);
                            }
                            match parse_strmap_members(x.drop_first()) {
                                Some(p) => Some((seq![(k, v)] + p.0, p.1)),
                                None => None,
                            }
                        } else if x[0] == '}' {
                            Some((seq![(k, v)], x.drop_first()))
                        } else {
                            None
                        }
                    },
                }
            }
        },
    }
}

pub proof fn lemma_parse_strmap_members_len(s: Seq<char>)
    ensures
        parse_strmap_members(s) matches Some(p) ==> p.1.len() < s.len(),
    decreases s.len(),
{
    match parse_string(s) {
        None => {},
        Some((k, r1)) => {
            lemma_parse_string_len(s);
            lemma_skip_ws_len(r1);
            let w = skip_ws(r1);
            if w.len() > 0 && w[0] == ':' {
                match parse_string(w.drop_first()) {
                    None => {},
                    Some((v, r2)) => {
                        lemma_parse_string_len(w.drop_first());
                        lemma_skip_ws_len(r2);
                        let x = skip_ws(r2);
                        if x.len() > 0 && x[0] == ',' {
                            lemma_parse_strmap_members_len(x.drop_first());
                        }
                    },
                }
            }
        },
    }
}

/// Parses an object of strings after optional leading whitespace: returns the
/// raw pairs in file order and the suffix after the closing brace.
pub open spec fn parse_strmap(s: Seq<char>) -> Option<(RawPairs, Seq<char>)> {
    let t = skip_ws(s);
    if t.len() == 0 || t[0] != '{' {
        None
    } else {
        let u = skip_ws(t.drop_first());
        if u.len() > 0 && u[0] == '}' {
            Some((Seq::empty(), u.drop_first()))
        } else {
            parse_strmap_members(t.drop_first())
        }
    }
}

pub proof fn lemma_parse_strmap_len(s: Seq<char>)
    ensures
        parse_strmap(s) matches Some(p) ==> p.1.len() < s.len(),
{
    lemma_skip_ws_len(s);
    let t = skip_ws(s);
    if t.len() > 0 && t[0] == '{' {
        lemma_skip_ws_len(t.drop_first());
        lemma_parse_strmap_members_len(t.drop_first());
    }
}

/// Executable mirror of `parse_strmap_members`.
fn parse_strmap_members_exec(s: &str, i: usize) -> (r: Option<(Vec<(String, String)>, usize)>)
    requires
        i <= s@.len(),
    ensures
        match r {
            Some(p) => i <= p.1 <= s@.len() && parse_strmap_members(s@.skip(i as int)) == Some(
                (crate::attrs::pairs_view(p.0@), s@.skip(p.1 as int)),
            ),
            None => parse_strmap_members(s@.skip(i as int)) is None,
        },
    decreases s@.len() - i,
{
    let n = s.unicode_len();
    let (k, j1) = match parse_string_exec(s, i) {
        Some(p) => p,
        None => {
            return None;
        },
    };
    let j2 = skip_ws_exec(s, j1);
    let ghost w = skip_ws(s@.skip(j1 as int));
    if j2 >= n {
        return None;
    }
    proof {
        assert(w[0] == s@[j2 as int]);
    }
    if s.get_char(j2) != ':' {
        return None;
    }
    proof {
        assert(w.drop_first() =~= s@.skip(j2 as int + 1));
    }
    let (v, j3) = match parse_string_exec(s, j2 + 1) {
        Some(p) => p,
        None => {
            return None;
        },
    };
    let j4 = skip_ws_exec(s, j3);
    let ghost x = skip_ws(s@.skip(j3 as int));
    if j4 >= n {
        return None;
    }
    let c = s.get_char(j4);
    proof {
        assert(x[0] == s@[j4 as int]);
        assert(x.drop_first() =~= s@.skip(j4 as int + 1));
    }
    if c == ',' {
        proof {
            lemma_parse_string_len(s@.skip(i as int));
            lemma_skip_ws_len(s@.skip(j1 as int));
            lemma_parse_string_len(s@.skip(j2 as int + 1));
            lemma_skip_ws_len(s@.skip(j3 as int));
        }
        match parse_strmap_members_exec(s, j4 + 1) {
            Some(p) => {
                let (mut rest_pairs, j5) = p;
                rest_pairs.insert(0, (k, v));
                proof {
                    assert(crate::attrs::pairs_view(rest_pairs@) =~= seq![(k@, v@)]
                        + crate::attrs::pairs_view(rest_pairs@.drop_first()));
                }
                Some((rest_pairs, j5))
            },
            None => None,
        }
    } else if c == '}' {
        let mut pairs: Vec<(String, String)> = Vec::new();
        pairs.push((k, v));
        proof {
            assert(crate::attrs::pairs_view(pairs@) =~= seq![(pairs@[0].0@, pairs@[0].1@)]);
        }
        Some((pairs, j4 + 1))
    } else {
        None
    }
}

/// Executable mirror of `parse_strmap`: the raw pairs are folded into an
/// `AttrMap` (last value wins for a repeated key).
pub fn parse_strmap_exec(s: &str, i: usize) -> (r: Option<(AttrMap, usize)>)
    requires
        i <= s@.len(),
    ensures
        match r {
            Some(p) => i <= p.1 <= s@.len() && (parse_strmap(s@.skip(i as int)) matches Some(q)
                && p.0@ == attrs_from_pairs(q.0) && s@.skip(p.1 as int) == q.1 && p.0.wf()),
            None => parse_strmap(s@.skip(i as int)) is None,
        },
{
    let n = s.unicode_len();
    let j1 = skip_ws_exec(s, i);
    let ghost t = skip_ws(s@.skip(i as int));
    if j1 >= n {
        return None;
    }
    proof {
        assert(t[0] == s@[j1 as int]);
        assert(t.drop_first() =~= s@.skip(j1 as int + 1));
    }
    if s.get_char(j1) != '{' {
        return None;
    }
    let j2 = skip_ws_exec(s, j1 + 1);
    let ghost u = skip_ws(s@.skip(j1 as int + 1));
    if j2 < n {
        proof {
            assert(u[0] == s@[j2 as int]);
            assert(u.drop_first() =~= s@.skip(j2 as int + 1));
        }
        if s.get_char(j2) == '}' {
            let m = AttrMap::new();
            return Some((m, j2 + 1));
        }
    }
    match parse_strmap_members_exec(s, j1 + 1) {
        Some(p) => {
            let (pairs, j3) = p;
            let ghost raw = crate::attrs::pairs_view(pairs@);
            let mut m = AttrMap::new();
            let np = pairs.len();
            let mut idx: usize = 0;
            proof {
                assert(raw.take(0) =~= Seq::<(Seq<char>, Seq<char>)>::empty());
            }
            while idx < np
                invariant
                    idx <= np,
                    np == pairs@.len(),
                    raw == crate::attrs::pairs_view(pairs@),
                    m@ == attrs_from_pairs(raw.take(idx as int)),
                    m.wf(),
                decreases np - idx,
            {
                let key = pairs[idx].0.clone();
                let value = pairs[idx].1.clone();
                proof {
                    assert(raw[idx as int] == (pairs@[idx as int].0@, pairs@[idx as int].1@));
                    assert(raw.take(idx as int + 1).drop_last() =~= raw.take(idx as int));
                    assert(raw.take(idx as int + 1).last() == raw[idx as int]);
                }
                m.set(key, value);
                idx = idx + 1;
            }
            proof {
                assert(raw.take(np as int) =~= raw);
            }
            Some((m, j3))
        },
        None => None,
    }
}

// ---------------------------------------------------------------------------
// Writing models
// ---------------------------------------------------------------------------
/// `n` spaces.
pub open spec fn sp(n: nat) -> Seq<char>
    decreases n,
{
    if n == 0 {
        Seq::empty()
    } else {
        sp((n - 1) as nat).push(' ')
    }
}

/// A newline followed by `n` spaces of indentation.
pub open spec fn nl_sp(n: nat) -> Seq<char> {
    seq!['\n'] + sp(n)
}

pub proof fn lemma_nl_sp_ws(n: nat)
    ensures
        forall|i: int| 0 <= i < nl_sp(n).len() ==> crate::json::is_ws_char(#[trigger] nl_sp(n)[i]),
    decreases n,
{
    if n == 0 {
    } else {
        lemma_nl_sp_ws((n - 1) as nat);
        assert forall|i: int| 0 <= i < nl_sp(n).len() implies crate::json::is_ws_char(
            #[trigger] nl_sp(n)[i],
        ) by {
            if i < nl_sp(n).len() - 1 {
                assert(nl_sp(n)[i] == nl_sp((n - 1) as nat)[i]);
            } else {
                assert(nl_sp(n)[i] == ' ');
            }
        }
    }
}

/// Appends a newline and `n` spaces.
pub fn push_nl_sp(out: &mut String, n: usize)
    ensures
        final(out)@ == old(out)@ + nl_sp(n as nat),
{
    push_char(out, '\n');
    let mut i: usize = 0;
    while i < n
        invariant
            i <= n,
            out@ == old(out)@ + seq!['\n'] + sp(i as nat),
        decreases n - i,
    {
        push_char(out, ' ');
        i = i + 1;
    }
    proof {
        assert(out@ =~= old(out)@ + nl_sp(n as nat));
    }
}

/// One attribute entry as written inside a component object.
pub open spec fn attrs_entry(p: (Seq<char>, Seq<char>)) -> Seq<char> {
    nl_sp(8) + quot(p.0) + seq![':', ' '] + quot(p.1)
}

/// The comma-separated entries of a non-empty attribute map.
pub open spec fn attrs_entries(m: AttrsView) -> Seq<char>
    decreases m.len(),
{
    if m.len() == 0 {
        Seq::empty()
    } else if m.len() == 1 {
        attrs_entry(m[0])
    } else {
        attrs_entry(m[0]) + seq![','] + attrs_entries(m.drop_first())
    }
}

/// An attribute map as a JSON object.
pub open spec fn json_of_attrs(m: AttrsView) -> Seq<char> {
    if m.len() == 0 {
        seq!['{', '}']
    } else {
        seq!['{'] + attrs_entries(m) + nl_sp(6) + seq!['}']
    }
}

/// A component as a JSON object.
pub open spec fn json_of_component(c: ComponentV) -> Seq<char> {
    nl_sp(4) + seq!['{'] + nl_sp(6) + quot("id"@) + seq![':', ' '] + quot(c.id) + seq![','] + nl_sp(
        6,
    ) + quot("component_values"@) + seq![':', ' '] + json_of_attrs(c.component_values) + nl_sp(4)
        + seq!['}']
}

pub open spec fn components_entries(cs: Seq<ComponentV>) -> Seq<char>
    decreases cs.len(),
{
    if cs.len() == 0 {
        Seq::empty()
    } else if cs.len() == 1 {
        json_of_component(cs[0])
    } else {
        json_of_component(cs[0]) + seq![','] + components_entries(cs.drop_first())
    }
}

pub open spec fn json_of_components(cs: Seq<ComponentV>) -> Seq<char> {
    if cs.len() == 0 {
        seq!['[', ']']
    } else {
        seq!['['] + components_entries(cs) + nl_sp(2) + seq![']']
    }
}

/// A connector as a JSON object.
pub open spec fn json_of_connector(c: ConnectorV) -> Seq<char> {
    nl_sp(4) + seq!['{'] + nl_sp(6) + quot("connector_type"@) + seq![':', ' '] + quot(
        c.connector_type,
    ) + seq![','] + nl_sp(6) + quot("source_component_id"@) + seq![':', ' '] + quot(
        c.source_component_id,
    ) + seq![','] + nl_sp(6) + quot("target_component_id"@) + seq![':', ' '] + quot(
        c.target_component_id,
    ) + nl_sp(4) + seq!['}']
}

pub open spec fn connectors_entries(cs: Seq<ConnectorV>) -> Seq<char>
    decreases cs.len(),
{
    if cs.len() == 0 {
        Seq::empty()
    } else if cs.len() == 1 {
        json_of_connector(cs[0])
    } else {
        json_of_connector(cs[0]) + seq![','] + connectors_entries(cs.drop_first())
    }
}

pub open spec fn json_of_connectors(cs: Seq<ConnectorV>) -> Seq<char> {
    if cs.len() == 0 {
        seq!['[', ']']
    } else {
        seq!['['] + connectors_entries(cs) + nl_sp(2) + seq![']']
    }
}

/// The pretty-printed JSON form of a model: the components (id and attribute
/// map each) followed by the connectors (type and the two component ids).
pub open spec fn json_of_model(m: ModelV) -> Seq<char> {
    seq!['{'] + nl_sp(2) + quot("components"@) + seq![':', ' '] + json_of_components(m.components)
        + seq![','] + nl_sp(2) + quot("connectors"@) + seq![':', ' '] + json_of_connectors(
        m.connectors,
    ) + seq!['\n', '}']
}

fn write_attrs_entries(out: &mut String, m: &AttrMap, i: usize)
    requires
        i < m@.len(),
    ensures
        final(out)@ == old(out)@ + attrs_entries(m@.skip(i as int)),
    decreases m@.len() - i,
{
    push_nl_sp(out, 8);
    write_json_string(out, m.key_at(i).as_str());
    push_char(out, ':');
    push_char(out, ' ');
    write_json_string(out, m.value_at(i).as_str());
    proof {
        assert(m@.skip(i as int)[0] == m@[i as int]);
        assert(m@.skip(i as int).drop_first() =~= m@.skip(i as int + 1));
    }
    let n = m.len();
    if i + 1 < n {
        push_char(out, ',');
        write_attrs_entries(out, m, i + 1);
        proof {
            assert(out@ =~= old(out)@ + attrs_entries(m@.skip(i as int)));
        }
    } else {
        proof {
            assert(m@.skip(i as int).len() == 1);
            assert(out@ =~= old(out)@ + attrs_entries(m@.skip(i as int)));
        }
    }
}

/// Writes an attribute map as a JSON object.
pub fn write_attrs(out: &mut String, m: &AttrMap)
    ensures
        final(out)@ == old(out)@ + json_of_attrs(m@),
{
    if m.len() == 0 {
        push_char(out, '{');
        push_char(out, '}');
        proof {
            assert(out@ =~= old(out)@ + json_of_attrs(m@));
        }
    } else {
        push_char(out, '{');
        write_attrs_entries(out, m, 0);
        push_nl_sp(out, 6);
        push_char(out, '}');
        proof {
            assert(m@.skip(0) =~= m@);
            assert(out@ =~= old(out)@ + json_of_attrs(m@));
        }
    }
}

fn write_component(out: &mut String, c: &Component)
    ensures
        final(out)@ == old(out)@ + json_of_component(c@),
{
    push_nl_sp(out, 4);
    push_char(out, '{');
    push_nl_sp(out, 6);
    write_json_string(out, "id");
    push_char(out, ':');
    push_char(out, ' ');
    write_json_string(out, c.id.as_str());
    push_char(out, ',');
    push_nl_sp(out, 6);
    write_json_string(out, "component_values");
    push_char(out, ':');
    push_char(out, ' ');
    write_attrs(out, &c.component_values);
    push_nl_sp(out, 4);
    push_char(out, '}');
    proof {
        assert(out@ =~= old(out)@ + json_of_component(c@));
    }
}

fn write_components_entries(out: &mut String, v: &Vec<Component>, i: usize)
    requires
        i < v@.len(),
    ensures
        final(out)@ == old(out)@ + components_entries(
            crate::model::components_view(v@).skip(i as int),
        ),
    decreases v@.len() - i,
{
    let ghost cs = crate::model::components_view(v@);
    write_component(out, &v[i]);
    proof {
        assert(cs[i as int] == v@[i as int]@);
        assert(cs.skip(i as int)[0] == cs[i as int]);
        assert(cs.skip(i as int).drop_first() =~= cs.skip(i as int + 1));
    }
    let n = v.len();
    if i + 1 < n {
        push_char(out, ',');
        write_components_entries(out, v, i + 1);
        proof {
            assert(out@ =~= old(out)@ + components_entries(cs.skip(i as int)));
        }
    } else {
        proof {
            assert(cs.skip(i as int).len() == 1);
            assert(out@ =~= old(out)@ + components_entries(cs.skip(i as int)));
        }
    }
}

fn write_connector(out: &mut String, c: &Connector)
    ensures
        final(out)@ == old(out)@ + json_of_connector(c@),
{
    push_nl_sp(out, 4);
    push_char(out, '{');
    push_nl_sp(out, 6);
    write_json_string(out, "connector_type");
    push_char(out, ':');
    push_char(out, ' ');
    write_json_string(out, c.connector_type.as_str());
    push_char(out, ',');
    push_nl_sp(out, 6);
    write_json_string(out, "source_component_id");
    push_char(out, ':');
    push_char(out, ' ');
    write_json_string(out, c.source_component_id.as_str());
    push_char(out, ',');
    push_nl_sp(out, 6);
    write_json_string(out, "target_component_id");
    push_char(out, ':');
    push_char(out, ' ');
    write_json_string(out, c.target_component_id.as_str());
    push_nl_sp(out, 4);
    push_char(out, '}');
    proof {
        assert(out@ =~= old(out)@ + json_of_connector(c@));
    }
}

fn write_connectors_entries(out: &mut String, v: &Vec<Connector>, i: usize)
    requires
        i < v@.len(),
    ensures
        final(out)@ == old(out)@ + connectors_entries(
            crate::model::connectors_view(v@).skip(i as int),
        ),
    decreases v@.len() - i,
{
    let ghost cs = crate::model::connectors_view(v@);
    write_connector(out, &v[i]);
    proof {
        assert(cs[i as int] == v@[i as int]@);
        assert(cs.skip(i as int)[0] == cs[i as int]);
        assert(cs.skip(i as int).drop_first() =~= cs.skip(i as int + 1));
    }
    let n = v.len();
    if i + 1 < n {
        push_char(out, ',');
        write_connectors_entries(out, v, i + 1);
        proof {
            assert(out@ =~= old(out)@ + connectors_entries(cs.skip(i as int)));
        }
    } else {
        proof {
            assert(cs.skip(i as int).len() == 1);
            assert(out@ =~= old(out)@ + connectors_entries(cs.skip(i as int)));
        }
    }
}

/// Renders a model as pretty-printed JSON, exactly `json_of_model` of its
/// view.
#[verifier::rlimit(50)]
pub fn model_to_json(m: &Model) -> (r: String)
    ensures
        r@ == json_of_model(m@),
{
    let mut out = String::new();
    push_char(&mut out, '{');
    push_nl_sp(&mut out, 2);
    write_json_string(&mut out, "components");
    push_char(&mut out, ':');
    push_char(&mut out, ' ');
    if m.components.len() == 0 {
        push_char(&mut out, '[');
        push_char(&mut out, ']');
    } else {
        push_char(&mut out, '[');
        write_components_entries(&mut out, &m.components, 0);
        push_nl_sp(&mut out, 2);
        push_char(&mut out, ']');
        proof {
            assert(crate::model::components_view(m.components@).skip(0)
                =~= crate::model::components_view(m.components@));
        }
    }
    push_char(&mut out, ',');
    push_nl_sp(&mut out, 2);
    write_json_string(&mut out, "connectors");
    push_char(&mut out, ':');
    push_char(&mut out, ' ');
    if m.connectors.len() == 0 {
        push_char(&mut out, '[');
        push_char(&mut out, ']');
    } else {
        push_char(&mut out, '[');
        write_connectors_entries(&mut out, &m.connectors, 0);
        push_nl_sp(&mut out, 2);
        push_char(&mut out, ']');
        proof {
            assert(crate::model::connectors_view(m.connectors@).skip(0)
                =~= crate::model::connectors_view(m.connectors@));
        }
    }
    push_char(&mut out, '\n');
    push_char(&mut out, '}');
    proof {
        assert(out@ =~= json_of_model(m@));
    }
    out
}

// ---------------------------------------------------------------------------
// Reading models
// ---------------------------------------------------------------------------
/// The input was not well-formed for the grammar the reader accepts.
#[derive(Debug, PartialEq, Eq, Structural, Clone, Copy)]
pub struct ParseError;

/// Parses one component object: `{ "id": ..., "component_values": {...} }`,
/// fields in that order.
pub open spec fn parse_component(s: Seq<char>) -> Option<(ComponentV, Seq<char>)> {
    let t = skip_ws(s);
    if t.len() == 0 || t[0] != '{' {
        None
    } else {
        match parse_string(t.drop_first()) {
            None => None,
            Some((k1, r1)) => {
                if k1 != "id"@ {
                    None
                } else {
                    let w1 = skip_ws(r1);
                    if w1.len() == 0 || w1[0] != ':' {
                        None
                    } else {
                        match parse_string(w1.drop_first()) {
                            None => None,
                            Some((idv, r2)) => {
                                let w2 = skip_ws(r2);
                                if w2.len() == 0 || w2[0] != ',' {
                                    None
                                } else {
                                    match parse_string(w2.drop_first()) {
                                        None => None,
                                        Some((k2, r3)) => {
                                            if k2 != "component_values"@ {
                                                None
                                            } else {
                                                let w3 = skip_ws(r3);
                                                if w3.len() == 0 || w3[0] != ':' {
                                                    None
                                                } else {
                                                    match parse_strmap(w3.drop_first()) {
                                                        None => None,
                                                        Some((pairs, r4)) => {
                                                            let w4 = skip_ws(r4);
                                                            if w4.len() == 0 || w4[0] != '}' {
                                                                None
                                                            } else {
                                                                Some(
                                                                    (
                                                                        ComponentV {
                                                                            id: idv,
                                                                            component_values:
                                                                                attrs_from_pairs(
                                                                                pairs,
                                                                            ),
                                                                        },
                                                                        w4.drop_first(),
                                                                    ),
                                                                )
                                                            }
                                                        },
                                                    }
                                                }
                                            }
                                        },
                                    }
                                }
                            },
                        }
                    }
                }
            },
        }
    }
}

pub proof fn lemma_parse_component_len(s: Seq<char>)
    ensures
        parse_component(s) matches Some(p) ==> p.1.len() < s.len(),
{
    lemma_skip_ws_len(s);
    let t = skip_ws(s);
    if t.len() > 0 && t[0] == '{' {
        lemma_parse_string_len(t.drop_first());
        match parse_string(t.drop_first()) {
            None => {},
            Some((k1, r1)) => {
                lemma_skip_ws_len(r1);
                let w1 = skip_ws(r1);
                if w1.len() > 0 && w1[0] == ':' {
                    lemma_parse_string_len(w1.drop_first());
                    match parse_string(w1.drop_first()) {
                        None => {},
                        Some((idv, r2)) => {
                            lemma_skip_ws_len(r2);
                            let w2 = skip_ws(r2);
                            if w2.len() > 0 && w2[0] == ',' {
                                lemma_parse_string_len(w2.drop_first());
                                match parse_string(w2.drop_first()) {
                                    None => {},
                                    Some((k2, r3)) => {
                                        lemma_skip_ws_len(r3);
                                        let w3 = skip_ws(r3);
                                        if w3.len() > 0 && w3[0] == ':' {
                                            lemma_parse_strmap_len(w3.drop_first());
                                            match parse_strmap(w3.drop_first()) {
                                                None => {},
                                                Some((pairs, r4)) => {
                                                    lemma_skip_ws_len(r4);
                                                },
                                            }
                                        }
                                    },
                                }
                            }
                        },
                    }
                }
            },
        }
    }
}

/// Parses the comma-separated items of a non-empty component array, up to and
/// including the closing bracket.
pub open spec fn parse_components_items(s: Seq<char>) -> Option<(Seq<ComponentV>, Seq<char>)>
    decreases s.len(),
{
    match parse_component(s) {
        None => None,
        Some((c, r)) => {
            let x = skip_ws(r);
            if x.len() == 0 {
                None
            } else if x[0] == ',' {
                proof {
                    lemma_parse_component_len(s);
                    lemma_skip_ws_len(r);
                }
                match parse_components_items(x.drop_first()) {
                    Some(p) => Some((seq![c] + p.0, p.1)),
                    None => None,
                }
            } else if x[0] == ']' {
                Some((seq![c], x.drop_first()))
            } else {
                None
            }
        },
    }
}

pub proof fn lemma_parse_components_items_len(s: Seq<char>)
    ensures
        parse_components_items(s) matches Some(p) ==> p.1.len() < s.len(),
    decreases s.len(),
{
    match parse_component(s) {
        None => {},
        Some((c, r)) => {
            lemma_parse_component_len(s);
            lemma_skip_ws_len(r);
            let x = skip_ws(r);
            if x.len() > 0 && x[0] == ',' {
                lemma_parse_components_items_len(x.drop_first());
            }
        },
    }
}

/// Parses a JSON array of component objects.
pub open spec fn parse_components(s: Seq<char>) -> Option<(Seq<ComponentV>, Seq<char>)> {
    let t = skip_ws(s);
    if t.len() == 0 || t[0] != '[' {
        None
    } else {
        let u = skip_ws(t.drop_first());
        if u.len() > 0 && u[0] == ']' {
            Some((Seq::empty(), u.drop_first()))
        } else {
            parse_components_items(t.drop_first())
        }
    }
}

pub proof fn lemma_parse_components_len(s: Seq<char>)
    ensures
        parse_components(s) matches Some(p) ==> p.1.len() < s.len(),
{
    lemma_skip_ws_len(s);
    let t = skip_ws(s);
    if t.len() > 0 && t[0] == '[' {
        lemma_skip_ws_len(t.drop_first());
        lemma_parse_components_items_len(t.drop_first());
    }
}

/// Parses one connector object: `connector_type`, `source_component_id`,
/// `target_component_id`, in that order.
pub open spec fn parse_connector(s: Seq<char>) -> Option<(ConnectorV, Seq<char>)> {
    let t = skip_ws(s);
    if t.len() == 0 || t[0] != '{' {
        None
    } else {
        match parse_string(t.drop_first()) {
            None => None,
            Some((k1, r1)) => {
                if k1 != "connector_type"@ {
                    None
                } else {
                    let w1 = skip_ws(r1);
                    if w1.len() == 0 || w1[0] != ':' {
                        None
                    } else {
                        match parse_string(w1.drop_first()) {
                            None => None,
                            Some((ct, r2)) => {
                                let w2 = skip_ws(r2);
                                if w2.len() == 0 || w2[0] != ',' {
                                    None
                                } else {
                                    match parse_string(w2.drop_first()) {
                                        None => None,
                                        Some((k2, r3)) => {
                                            if k2 != "source_component_id"@ {
                                                None
                                            } else {
                                                let w3 = skip_ws(r3);
                                                if w3.len() == 0 || w3[0] != ':' {
                                                    None
                                                } else {
                                                    match parse_string(w3.drop_first()) {
                                                        None => None,
                                                        Some((sid, r4)) => {
                                                            let w4 = skip_ws(r4);
                                                            if w4.len() == 0 || w4[0] != ',' {
                                                                None
                                                            } else {
                                                                match parse_string(
                                                                    w4.drop_first(),
                                                                ) {
                                                                    None => None,
                                                                    Some((k3, r5)) => {
                                                                        if k3
                                                                            != "target_component_id"@ {
                                                                            None
                                                                        } else {
                                                                            let w5 = skip_ws(r5);
                                                                            if w5.len() == 0
                                                                                || w5[0] != ':' {
                                                                                None
                                                                            } else {
                                                                                match parse_string(
                                                                                    w5.drop_first(),
                                                                                ) {
                                                                                    None => None,
                                                                                    Some(
                                                                                        (tid, r6),
                                                                                    ) => {
                                                                                        let w6 =
                                                                                            skip_ws(
                                                                                            r6,
                                                                                        );
                                                                                        if w6.len()
                                                                                            == 0
                                                                                            || w6[0]
                                                                                            != '}' {
                                                                                            None
                                                                                        } else {
                                                                                            Some(
                                                                                                (
                                                                                                    ConnectorV {
                                                                                                        connector_type:
                                                                                                            ct,
                                                                                                        source_component_id:
                                                                                                            sid,
                                                                                                        target_component_id:
                                                                                                            tid,
                                                                                                    },
                                                                                                    w6.drop_first(),
                                                                                                ),
                                                                                            )
                                                                                        }
                                                                                    },
                                                                                }
                                                                            }
                                                                        }
                                                                    },
                                                                }
                                                            }
                                                        },
                                                    }
                                                }
                                            }
                                        },
                                    }
                                }
                            },
                        }
                    }
                }
            },
        }
    }
}

pub proof fn lemma_parse_connector_len(s: Seq<char>)
    ensures
        parse_connector(s) matches Some(p) ==> p.1.len() < s.len(),
{
    lemma_skip_ws_len(s);
    let t = skip_ws(s);
    if t.len() > 0 && t[0] == '{' {
        lemma_parse_string_len(t.drop_first());
        match parse_string(t.drop_first()) {
            None => {},
            Some((k1, r1)) => {
                lemma_skip_ws_len(r1);
                let w1 = skip_ws(r1);
                if w1.len() > 0 && w1[0] == ':' {
                    lemma_parse_string_len(w1.drop_first());
                    match parse_string(w1.drop_first()) {
                        None => {},
                        Some((ct, r2)) => {
                            lemma_skip_ws_len(r2);
                            let w2 = skip_ws(r2);
                            if w2.len() > 0 && w2[0] == ',' {
                                lemma_parse_string_len(w2.drop_first());
                                match parse_string(w2.drop_first()) {
                                    None => {},
                                    Some((k2, r3)) => {
                                        lemma_skip_ws_len(r3);
                                        let w3 = skip_ws(r3);
                                        if w3.len() > 0 && w3[0] == ':' {
                                            lemma_parse_string_len(w3.drop_first());
                                            match parse_string(w3.drop_first()) {
                                                None => {},
                                                Some((sid, r4)) => {
                                                    lemma_skip_ws_len(r4);
                                                    let w4 = skip_ws(r4);
                                                    if w4.len() > 0 && w4[0] == ',' {
                                                        lemma_parse_string_len(w4.drop_first());
                                                        match parse_string(w4.drop_first()) {
                                                            None => {},
                                                            Some((k3, r5)) => {
                                                                lemma_skip_ws_len(r5);
                                                                let w5 = skip_ws(r5);
                                                                if w5.len() > 0 && w5[0] == ':' {
                                                                    lemma_parse_string_len(
                                                                        w5.drop_first(),
                                                                    );
                                                                    match parse_string(
                                                                        w5.drop_first(),
                                                                    ) {
                                                                        None => {},
                                                                        Some((tid, r6)) => {
                                                                            lemma_skip_ws_len(r6);
                                                                        },
                                                                    }
                                                                }
                                                            },
                                                        }
                                                    }
                                                },
                                            }
                                        }
                                    },
                                }
                            }
                        },
                    }
                }
            },
        }
    }
}

pub open spec fn parse_connectors_items(s: Seq<char>) -> Option<(Seq<ConnectorV>, Seq<char>)>
    decreases s.len(),
{
    match parse_connector(s) {
        None => None,
        Some((c, r)) => {
            let x = skip_ws(r);
            if x.len() == 0 {
                None
            } else if x[0] == ',' {
                proof {
                    lemma_parse_connector_len(s);
                    lemma_skip_ws_len(r);
                }
                match parse_connectors_items(x.drop_first()) {
                    Some(p) => Some((seq![c] + p.0, p.1)),
                    None => None,
                }
            } else if x[0] == ']' {
                Some((seq![c], x.drop_first()))
            } else {
                None
            }
        },
    }
}

pub open spec fn parse_connectors(s: Seq<char>) -> Option<(Seq<ConnectorV>, Seq<char>)> {
    let t = skip_ws(s);
    if t.len() == 0 || t[0] != '[' {
        None
    } else {
        let u = skip_ws(t.drop_first());
        if u.len() > 0 && u[0] == ']' {
            Some((Seq::empty(), u.drop_first()))
        } else {
            parse_connectors_items(t.drop_first())
        }
    }
}

/// Parses a complete model document: `{ "components": [...], "connectors":
/// [...] }` with nothing but whitespace after it.
pub open spec fn parse_model_text(s: Seq<char>) -> Option<ModelV> {
    let t = skip_ws(s);
    if t.len() == 0 || t[0] != '{' {
        None
    } else {
        match parse_string(t.drop_first()) {
            None => None,
            Some((k1, r1)) => {
                if k1 != "components"@ {
                    None
                } else {
                    let w1 = skip_ws(r1);
                    if w1.len() == 0 || w1[0] != ':' {
                        None
                    } else {
                        match parse_components(w1.drop_first()) {
                            None => None,
                            Some((cs, r2)) => {
                                let w2 = skip_ws(r2);
                                if w2.len() == 0 || w2[0] != ',' {
                                    None
                                } else {
                                    match parse_string(w2.drop_first()) {
                                        None => None,
                                        Some((k2, r3)) => {
                                            if k2 != "connectors"@ {
                                                None
                                            } else {
                                                let w3 = skip_ws(r3);
                                                if w3.len() == 0 || w3[0] != ':' {
                                                    None
                                                } else {
                                                    match parse_connectors(w3.drop_first()) {
                                                        None => None,
                                                        Some((ks, r4)) => {
                                                            let w4 = skip_ws(r4);
                                                            if w4.len() == 0 || w4[0] != '}' {
                                                                None
                                                            } else if skip_ws(
                                                                w4.drop_first(),
                                                            ).len() != 0 {
                                                                None
                                                            } else {
                                                                Some(
                                                                    ModelV {
                                                                        components: cs,
                                                                        connectors: ks,
                                                                    },
                                                                )
                                                            }
                                                        },
                                                    }
                                                }
                                            }
                                        },
                                    }
                                }
                            },
                        }
                    }
                }
            },
        }
    }
}

/// Executable mirror of `parse_component`.
#[verifier::rlimit(100)]
fn parse_component_exec(s: &str, i: usize) -> (r: Option<(Component, usize)>)
    requires
        i <= s@.len(),
    ensures
        match r {
            Some(p) => i <= p.1 <= s@.len() && parse_component(s@.skip(i as int)) == Some(
                (p.0@, s@.skip(p.1 as int)),
            ) && p.0.component_values.wf(),
            None => parse_component(s@.skip(i as int)) is None,
        },
{
    let n = s.unicode_len();
    let j0 = skip_ws_exec(s, i);
    let ghost t = skip_ws(s@.skip(i as int));
    if j0 >= n {
        return None;
    }
    proof {
        assert(t[0] == s@[j0 as int]);
        assert(t.drop_first() =~= s@.skip(j0 as int + 1));
    }
    if s.get_char(j0) != '{' {
        return None;
    }
    let (k1, j1) = match parse_string_exec(s, j0 + 1) {
        Some(p) => p,
        None => {
            return None;
        },
    };
    if !crate::strings::str_eq(k1.as_str(), "id") {
        return None;
    }
    let j2 = skip_ws_exec(s, j1);
    let ghost w1 = skip_ws(s@.skip(j1 as int));
    if j2 >= n {
        return None;
    }
    proof {
        assert(w1[0] == s@[j2 as int]);
        assert(w1.drop_first() =~= s@.skip(j2 as int + 1));
    }
    if s.get_char(j2) != ':' {
        return None;
    }
    let (idv, j3) = match parse_string_exec(s, j2 + 1) {
        Some(p) => p,
        None => {
            return None;
        },
    };
    let j4 = skip_ws_exec(s, j3);
    let ghost w2 = skip_ws(s@.skip(j3 as int));
    if j4 >= n {
        return None;
    }
    proof {
        assert(w2[0] == s@[j4 as int]);
        assert(w2.drop_first() =~= s@.skip(j4 as int + 1));
    }
    if s.get_char(j4) != ',' {
        return None;
    }
    let (k2, j5) = match parse_string_exec(s, j4 + 1) {
        Some(p) => p,
        None => {
            return None;
        },
    };
    if !crate::strings::str_eq(k2.as_str(), "component_values") {
        return None;
    }
    let j6 = skip_ws_exec(s, j5);
    let ghost w3 = skip_ws(s@.skip(j5 as int));
    if j6 >= n {
        return None;
    }
    proof {
        assert(w3[0] == s@[j6 as int]);
        assert(w3.drop_first() =~= s@.skip(j6 as int + 1));
    }
    if s.get_char(j6) != ':' {
        return None;
    }
    let (vals, j7) = match parse_strmap_exec(s, j6 + 1) {
        Some(p) => p,
        None => {
            return None;
        },
    };
    let j8 = skip_ws_exec(s, j7);
    let ghost w4 = skip_ws(s@.skip(j7 as int));
    if j8 >= n {
        return None;
    }
    proof {
        assert(w4[0] == s@[j8 as int]);
        assert(w4.drop_first() =~= s@.skip(j8 as int + 1));
    }
    if s.get_char(j8) != '}' {
        return None;
    }
    Some((Component { id: idv, component_values: vals }, j8 + 1))
}

/// Executable mirror of `parse_components_items`.
fn parse_components_items_exec(s: &str, i: usize) -> (r: Option<(Vec<Component>, usize)>)
    requires
        i <= s@.len(),
    ensures
        match r {
            Some(p) => i <= p.1 <= s@.len() && parse_components_items(s@.skip(i as int)) == Some(
                (crate::model::components_view(p.0@), s@.skip(p.1 as int)),
            ) && (forall|k: int|
                0 <= k < p.0@.len() ==> (#[trigger] p.0@[k]).component_values.wf()),
            None => parse_components_items(s@.skip(i as int)) is None,
        },
    decreases s@.len() - i,
{
    let n = s.unicode_len();
    let (c, j1) = match parse_component_exec(s, i) {
        Some(p) => p,
        None => {
            return None;
        },
    };
    let j2 = skip_ws_exec(s, j1);
    let ghost x = skip_ws(s@.skip(j1 as int));
    if j2 >= n {
        return None;
    }
    let ch = s.get_char(j2);
    proof {
        assert(x[0] == s@[j2 as int]);
        assert(x.drop_first() =~= s@.skip(j2 as int + 1));
    }
    if ch == ',' {
        proof {
            lemma_parse_component_len(s@.skip(i as int));
            lemma_skip_ws_len(s@.skip(j1 as int));
        }
        match parse_components_items_exec(s, j2 + 1) {
            Some(p) => {
                let (mut items, j3) = p;
                items.insert(0, c);
                proof {
                    assert(crate::model::components_view(items@) =~= seq![items@[0]@]
                        + crate::model::components_view(items@.drop_first()));
                }
                Some((items, j3))
            },
            None => None,
        }
    } else if ch == ']' {
        let mut items: Vec<Component> = Vec::new();
        items.push(c);
        proof {
            assert(crate::model::components_view(items@) =~= seq![items@[0]@]);
        }
        Some((items, j2 + 1))
    } else {
        None
    }
}

/// Executable mirror of `parse_connector`.
#[verifier::rlimit(80)]
fn parse_connector_exec(s: &str, i: usize) -> (r: Option<(Connector, usize)>)
    requires
        i <= s@.len(),
    ensures
        match r {
            Some(p) => i <= p.1 <= s@.len() && parse_connector(s@.skip(i as int)) == Some(
                (p.0@, s@.skip(p.1 as int)),
            ),
            None => parse_connector(s@.skip(i as int)) is None,
        },
{
    let n = s.unicode_len();
    let j0 = skip_ws_exec(s, i);
    let ghost t = skip_ws(s@.skip(i as int));
    if j0 >= n {
        return None;
    }
    proof {
        assert(t[0] == s@[j0 as int]);
        assert(t.drop_first() =~= s@.skip(j0 as int + 1));
    }
    if s.get_char(j0) != '{' {
        return None;
    }
    let (k1, j1) = match parse_string_exec(s, j0 + 1) {
        Some(p) => p,
        None => {
            return None;
        },
    };
    if !crate::strings::str_eq(k1.as_str(), "connector_type") {
        return None;
    }
    let j2 = skip_ws_exec(s, j1);
    let ghost w1 = skip_ws(s@.skip(j1 as int));
    if j2 >= n {
        return None;
    }
    proof {
        assert(w1[0] == s@[j2 as int]);
        assert(w1.drop_first() =~= s@.skip(j2 as int + 1));
    }
    if s.get_char(j2) != ':' {
        return None;
    }
    let (ct, j3) = match parse_string_exec(s, j2 + 1) {
        Some(p) => p,
        None => {
            return None;
        },
    };
    let j4 = skip_ws_exec(s, j3);
    let ghost w2 = skip_ws(s@.skip(j3 as int));
    if j4 >= n {
        return None;
    }
    proof {
        assert(w2[0] == s@[j4 as int]);
        assert(w2.drop_first() =~= s@.skip(j4 as int + 1));
    }
    if s.get_char(j4) != ',' {
        return None;
    }
    let (k2, j5) = match parse_string_exec(s, j4 + 1) {
        Some(p) => p,
        None => {
            return None;
        },
    };
    if !crate::strings::str_eq(k2.as_str(), "source_component_id") {
        return None;
    }
    let j6 = skip_ws_exec(s, j5);
    let ghost w3 = skip_ws(s@.skip(j5 as int));
    if j6 >= n {
        return None;
    }
    proof {
        assert(w3[0] == s@[j6 as int]);
        assert(w3.drop_first() =~= s@.skip(j6 as int + 1));
    }
    if s.get_char(j6) != ':' {
        return None;
    }
    let (sid, j7) = match parse_string_exec(s, j6 + 1) {
        Some(p) => p,
        None => {
            return None;
        },
    };
    let j8 = skip_ws_exec(s, j7);
    let ghost w4 = skip_ws(s@.skip(j7 as int));
    if j8 >= n {
        return None;
    }
    proof {
        assert(w4[0] == s@[j8 as int]);
        assert(w4.drop_first() =~= s@.skip(j8 as int + 1));
    }
    if s.get_char(j8) != ',' {
        return None;
    }
    let (k3, j9) = match parse_string_exec(s, j8 + 1) {
        Some(p) => p,
        None => {
            return None;
        },
    };
    if !crate::strings::str_eq(k3.as_str(), "target_component_id") {
        return None;
    }
    let j10 = skip_ws_exec(s, j9);
    let ghost w5 = skip_ws(s@.skip(j9 as int));
    if j10 >= n {
        return None;
    }
    proof {
        assert(w5[0] == s@[j10 as int]);
        assert(w5.drop_first() =~= s@.skip(j10 as int + 1));
    }
    if s.get_char(j10) != ':' {
        return None;
    }
    let (tid, j11) = match parse_string_exec(s, j10 + 1) {
        Some(p) => p,
        None => {
            return None;
        },
    };
    let j12 = skip_ws_exec(s, j11);
    let ghost w6 = skip_ws(s@.skip(j11 as int));
    if j12 >= n {
        return None;
    }
    proof {
        assert(w6[0] == s@[j12 as int]);
        assert(w6.drop_first() =~= s@.skip(j12 as int + 1));
    }
    if s.get_char(j12) != '}' {
        return None;
    }
    Some(
        (
            Connector {
                connector_type: ct,
                source_component_id: sid,
                target_component_id: tid,
            },
            j12 + 1,
        ),
    )
}

/// Executable mirror of `parse_connectors_items`.
fn parse_connectors_items_exec(s: &str, i: usize) -> (r: Option<(Vec<Connector>, usize)>)
    requires
        i <= s@.len(),
    ensures
        match r {
            Some(p) => i <= p.1 <= s@.len() && parse_connectors_items(s@.skip(i as int)) == Some(
                (crate::model::connectors_view(p.0@), s@.skip(p.1 as int)),
            ),
            None => parse_connectors_items(s@.skip(i as int)) is None,
        },
    decreases s@.len() - i,
{
    let n = s.unicode_len();
    let (c, j1) = match parse_connector_exec(s, i) {
        Some(p) => p,
        None => {
            return None;
        },
    };
    let j2 = skip_ws_exec(s, j1);
    let ghost x = skip_ws(s@.skip(j1 as int));
    if j2 >= n {
        return None;
    }
    let ch = s.get_char(j2);
    proof {
        assert(x[0] == s@[j2 as int]);
        assert(x.drop_first() =~= s@.skip(j2 as int + 1));
    }
    if ch == ',' {
        proof {
            lemma_parse_connector_len(s@.skip(i as int));
            lemma_skip_ws_len(s@.skip(j1 as int));
        }
        match parse_connectors_items_exec(s, j2 + 1) {
            Some(p) => {
                let (mut items, j3) = p;
                items.insert(0, c);
                proof {
                    assert(crate::model::connectors_view(items@) =~= seq![items@[0]@]
                        + crate::model::connectors_view(items@.drop_first()));
                }
                Some((items, j3))
            },
            None => None,
        }
    } else if ch == ']' {
        let mut items: Vec<Connector> = Vec::new();
        items.push(c);
        proof {
            assert(crate::model::connectors_view(items@) =~= seq![items@[0]@]);
        }
        Some((items, j2 + 1))
    } else {
        None
    }
}

/// Decodes a model from its JSON text.  Succeeds exactly on the texts that
/// `parse_model_text` accepts, and then returns exactly the model it denotes.
#[verifier::rlimit(100)]
pub fn model_from_json(s: &str) -> (r: Result<Model, ParseError>)
    ensures
        match r {
            Ok(m) => parse_model_text(s@) == Some(m@) && (forall|k: int|
                0 <= k < m.components@.len() ==> (
                #[trigger] m.components@[k]).component_values.wf()),
            Err(_) => parse_model_text(s@) is None,
        },
{
    let ghost whole = s@;
    proof {
        assert(whole.skip(0) =~= whole);
    }
    let n = s.unicode_len();
    let j0 = skip_ws_exec(s, 0);
    let ghost t = skip_ws(whole);
    if j0 >= n {
        return Err(ParseError);
    }
    proof {
        assert(t[0] == s@[j0 as int]);
        assert(t.drop_first() =~= s@.skip(j0 as int + 1));
    }
    if s.get_char(j0) != '{' {
        return Err(ParseError);
    }
    let (k1, j1) = match parse_string_exec(s, j0 + 1) {
        Some(p) => p,
        None => {
            return Err(ParseError);
        },
    };
    if !crate::strings::str_eq(k1.as_str(), "components") {
        return Err(ParseError);
    }
    let j2 = skip_ws_exec(s, j1);
    let ghost w1 = skip_ws(s@.skip(j1 as int));
    if j2 >= n {
        return Err(ParseError);
    }
    proof {
        assert(w1[0] == s@[j2 as int]);
        assert(w1.drop_first() =~= s@.skip(j2 as int + 1));
    }
    if s.get_char(j2) != ':' {
        return Err(ParseError);
    }
    // Component array.
    let j3 = skip_ws_exec(s, j2 + 1);
    let ghost ta = skip_ws(s@.skip(j2 as int + 1));
    if j3 >= n {
        return Err(ParseError);
    }
    proof {
        assert(ta[0] == s@[j3 as int]);
        assert(ta.drop_first() =~= s@.skip(j3 as int + 1));
    }
    if s.get_char(j3) != '[' {
        return Err(ParseError);
    }
    let j4 = skip_ws_exec(s, j3 + 1);
    let ghost ua = skip_ws(s@.skip(j3 as int + 1));
    let mut comps: Vec<Component> = Vec::new();
    let j5: usize;
    let mut have_empty = false;
    if j4 < n {
        proof {
            assert(ua[0] == s@[j4 as int]);
            assert(ua.drop_first() =~= s@.skip(j4 as int + 1));
        }
        if s.get_char(j4) == ']' {
            have_empty = true;
        }
    }
    if have_empty {
        j5 = j4 + 1;
        proof {
            assert(crate::model::components_view(comps@)
                =~= Seq::<ComponentV>::empty());
        }
    } else {
        let (items, jx) = match parse_components_items_exec(s, j3 + 1) {
            Some(p) => p,
            None => {
                return Err(ParseError);
            },
        };
        comps = items;
        j5 = jx;
    }
    let j6 = skip_ws_exec(s, j5);
    let ghost w2 = skip_ws(s@.skip(j5 as int));
    if j6 >= n {
        return Err(ParseError);
    }
    proof {
        assert(w2[0] == s@[j6 as int]);
        assert(w2.drop_first() =~= s@.skip(j6 as int + 1));
    }
    if s.get_char(j6) != ',' {
        return Err(ParseError);
    }
    let (k2, j7) = match parse_string_exec(s, j6 + 1) {
        Some(p) => p,
        None => {
            return Err(ParseError);
        },
    };
    if !crate::strings::str_eq(k2.as_str(), "connectors") {
        return Err(ParseError);
    }
    let j8 = skip_ws_exec(s, j7);
    let ghost w3 = skip_ws(s@.skip(j7 as int));
    if j8 >= n {
        return Err(ParseError);
    }
    proof {
        assert(w3[0] == s@[j8 as int]);
        assert(w3.drop_first() =~= s@.skip(j8 as int + 1));
    }
    if s.get_char(j8) != ':' {
        return Err(ParseError);
    }
    // Connector array.
    let j9 = skip_ws_exec(s, j8 + 1);
    let ghost tb = skip_ws(s@.skip(j8 as int + 1));
    if j9 >= n {
        return Err(ParseError);
    }
    proof {
        assert(tb[0] == s@[j9 as int]);
        assert(tb.drop_first() =~= s@.skip(j9 as int + 1));
    }
    if s.get_char(j9) != '[' {
        return Err(ParseError);
    }
    let j10 = skip_ws_exec(s, j9 + 1);
    let ghost ub = skip_ws(s@.skip(j9 as int + 1));
    let mut conns: Vec<Connector> = Vec::new();
    let j11: usize;
    let mut have_empty2 = false;
    if j10 < n {
        proof {
            assert(ub[0] == s@[j10 as int]);
            assert(ub.drop_first() =~= s@.skip(j10 as int + 1));
        }
        if s.get_char(j10) == ']' {
            have_empty2 = true;
        }
    }
    if have_empty2 {
        j11 = j10 + 1;
        proof {
            assert(crate::model::connectors_view(conns@)
                =~= Seq::<ConnectorV>::empty());
        }
    } else {
        let (items, jx) = match parse_connectors_items_exec(s, j9 + 1) {
            Some(p) => p,
            None => {
                return Err(ParseError);
            },
        };
        conns = items;
        j11 = jx;
    }
    let j12 = skip_ws_exec(s, j11);
    let ghost w4 = skip_ws(s@.skip(j11 as int));
    if j12 >= n {
        return Err(ParseError);
    }
    proof {
        assert(w4[0] == s@[j12 as int]);
        assert(w4.drop_first() =~= s@.skip(j12 as int + 1));
    }
    if s.get_char(j12) != '}' {
        return Err(ParseError);
    }
    let j13 = skip_ws_exec(s, j12 + 1);
    if j13 < n {
        proof {
            assert(skip_ws(s@.skip(j12 as int + 1)).len() > 0);
        }
        return Err(ParseError);
    }
    proof {
        assert(skip_ws(s@.skip(j12 as int + 1)) =~= s@.skip(j13 as int));
        assert(skip_ws(s@.skip(j12 as int + 1)).len() == 0);
    }
    Ok(Model { components: comps, connectors: conns })
}

// ---------------------------------------------------------------------------
// Reading connector instances
// ---------------------------------------------------------------------------
pub open spec fn opt_str_view(o: Option<String>) -> Option<Seq<char>> {
    match o {
        Some(s) => Some(s@),
        None => None,
    }
}

pub open spec fn opt_map_view(o: Option<AttrMap>) -> Option<AttrsView> {
    match o {
        Some(m) => Some(m@),
        None => None,
    }
}

/// Parses the members of one connector-instance object, starting after the
/// opening brace, with the fields seen so far carried along.  The four field
/// names may come in any order; an unknown or repeated field name is
/// rejected.  `connector_type` maps to a string, the other three to objects
/// of strings (folded, last value winning for a repeated key).  At the
/// closing brace the three required fields must be present;
/// `additional_source_component_values` defaults to the empty map.
pub open spec fn parse_ci_members(
    s: Seq<char>,
    ct: Option<Seq<char>>,
    src: Option<AttrsView>,
    tgt: Option<AttrsView>,
    add: Option<AttrsView>,
) -> Option<(CiV, Seq<char>)>
    decreases s.len(),
{
    match parse_string(s) {
        None => None,
        Some((k, r1)) => {
            let w = skip_ws(r1);
            if w.len() == 0 || w[0] != ':' {
                None
            } else {
                let stepped: Option<
                    ((Option<Seq<char>>, Option<AttrsView>, Option<AttrsView>, Option<AttrsView>), Seq<
                        char,
                    >),
                > = if k == "connector_type"@ {
                    if ct is Some {
                        None
                    } else {
                        match parse_string(w.drop_first()) {
                            None => None,
                            Some((v, r2)) => Some(((Some(v), src, tgt, add), r2)),
                        }
                    }
                } else if k == "source_component_values"@ {
                    if src is Some {
                        None
                    } else {
                        match parse_strmap(w.drop_first()) {
                            None => None,
                            Some((v, r2)) => Some(((ct, Some(attrs_from_pairs(v)), tgt, add), r2)),
                        }
                    }
                } else if k == "target_component_values"@ {
                    if tgt is Some {
                        None
                    } else {
                        match parse_strmap(w.drop_first()) {
                            None => None,
                            Some((v, r2)) => Some(((ct, src, Some(attrs_from_pairs(v)), add), r2)),
                        }
                    }
                } else if k == "additional_source_component_values"@ {
                    if add is Some {
                        None
                    } else {
                        match parse_strmap(w.drop_first()) {
                            None => None,
                            Some((v, r2)) => Some(((ct, src, tgt, Some(attrs_from_pairs(v))), r2)),
                        }
                    }
                } else {
                    None
                };
                match stepped {
                    None => None,
                    Some((accs, r2)) => {
                        let x = skip_ws(r2);
                        if x.len() == 0 {
                            None
                        } else if x[0] == ',' {
                            proof {
                                lemma_parse_string_len(s);
                                lemma_skip_ws_len(r1);
                                lemma_parse_string_len(w.drop_first());
                                lemma_parse_strmap_len(w.drop_first());
                                lemma_skip_ws_len(r2);
                            }
                            parse_ci_members(x.drop_first(), accs.0, accs.1, accs.2, accs.3)
                        } else if x[0] == '}' {
                            match (accs.0, accs.1, accs.2) {
                                (Some(ctv), Some(srcv), Some(tgtv)) => Some(
                                    (
                                        CiV {
                                            connector_type: ctv,
                                            source_component_values: srcv,
                                            target_component_values: tgtv,
                                            additional_source_component_values: match accs.3 {
                                                Some(a) => a,
                                                None => Seq::empty(),
                                            },
                                        },
                                        x.drop_first(),
                                    ),
                                ),
                                _ => None,
                            }
                        } else {
                            None
                        }
                    },
                }
            }
        },
    }
}

pub proof fn lemma_parse_ci_members_len(
    s: Seq<char>,
    ct: Option<Seq<char>>,
    src: Option<AttrsView>,
    tgt: Option<AttrsView>,
    add: Option<AttrsView>,
)
    ensures
        parse_ci_members(s, ct, src, tgt, add) matches Some(p) ==> p.1.len() < s.len(),
    decreases s.len(),
{
    match parse_string(s) {
        None => {},
        Some((k, r1)) => {
            lemma_parse_string_len(s);
            lemma_skip_ws_len(r1);
            let w = skip_ws(r1);
            if w.len() > 0 && w[0] == ':' {
                lemma_parse_string_len(w.drop_first());
                lemma_parse_strmap_len(w.drop_first());
                match parse_string(w.drop_first()) {
                    None => {},
                    Some((v, r2)) => {
                        lemma_skip_ws_len(r2);
                        let x = skip_ws(r2);
                        if x.len() > 0 && x[0] == ',' {
                            lemma_parse_ci_members_len(x.drop_first(), Some(v), src, tgt, add);
                        }
                    },
                }
                match parse_strmap(w.drop_first()) {
                    None => {},
                    Some((v, r2)) => {
                        lemma_skip_ws_len(r2);
                        let x = skip_ws(r2);
                        if x.len() > 0 && x[0] == ',' {
                            let f = Some(attrs_from_pairs(v));
                            lemma_parse_ci_members_len(x.drop_first(), ct, f, tgt, add);
                            lemma_parse_ci_members_len(x.drop_first(), ct, src, f, add);
                            lemma_parse_ci_members_len(x.drop_first(), ct, src, tgt, f);
                        }
                    },
                }
            }
        },
    }
}

/// Parses one connector-instance object.
pub open spec fn parse_ci(s: Seq<char>) -> Option<(CiV, Seq<char>)> {
    let t = skip_ws(s);
    if t.len() == 0 || t[0] != '{' {
        None
    } else {
        parse_ci_members(t.drop_first(), None, None, None, None)
    }
}

pub proof fn lemma_parse_ci_len(s: Seq<char>)
    ensures
        parse_ci(s) matches Some(p) ==> p.1.len() < s.len(),
{
    lemma_skip_ws_len(s);
    let t = skip_ws(s);
    if t.len() > 0 && t[0] == '{' {
        lemma_parse_ci_members_len(t.drop_first(), None, None, None, None);
    }
}

pub open spec fn parse_cis_items(s: Seq<char>) -> Option<(Seq<CiV>, Seq<char>)>
    decreases s.len(),
{
    match parse_ci(s) {
        None => None,
        Some((c, r)) => {
            let x = skip_ws(r);
            if x.len() == 0 {
                None
            } else if x[0] == ',' {
                proof {
                    lemma_parse_ci_len(s);
                    lemma_skip_ws_len(r);
                }
                match parse_cis_items(x.drop_first()) {
                    Some(p) => Some((seq![c] + p.0, p.1)),
                    None => None,
                }
            } else if x[0] == ']' {
                Some((seq![c], x.drop_first()))
            } else {
                None
            }
        },
    }
}

/// Parses a complete connector-instance file: a JSON array of records with
/// nothing but whitespace after it.
pub open spec fn parse_cis_text(s: Seq<char>) -> Option<Seq<CiV>> {
    let t = skip_ws(s);
    if t.len() == 0 || t[0] != '[' {
        None
    } else {
        let u = skip_ws(t.drop_first());
        if u.len() > 0 && u[0] == ']' {
            if skip_ws(u.drop_first()).len() == 0 {
                Some(Seq::empty())
            } else {
                None
            }
        } else {
            match parse_cis_items(t.drop_first()) {
                None => None,
                Some((cs, r)) => {
                    if skip_ws(r).len() == 0 {
                        Some(cs)
                    } else {
                        None
                    }
                },
            }
        }
    }
}

/// Executable mirror of `parse_ci_members`.
#[verifier::rlimit(100)]
fn parse_ci_members_exec(
    s: &str,
    i: usize,
    ct: Option<String>,
    src: Option<AttrMap>,
    tgt: Option<AttrMap>,
    add: Option<AttrMap>,
) -> (r: Option<(Ci, usize)>)
    requires
        i <= s@.len(),
        src matches Some(m) ==> m.wf(),
        tgt matches Some(m) ==> m.wf(),
        add matches Some(m) ==> m.wf(),
    ensures
        match r {
            Some(p) => i <= p.1 <= s@.len() && parse_ci_members(
                s@.skip(i as int),
                opt_str_view(ct),
                opt_map_view(src),
                opt_map_view(tgt),
                opt_map_view(add),
            ) == Some((p.0@, s@.skip(p.1 as int))) && crate::model::ci_wf(p.0@),
            None => parse_ci_members(
                s@.skip(i as int),
                opt_str_view(ct),
                opt_map_view(src),
                opt_map_view(tgt),
                opt_map_view(add),
            ) is None,
        },
    decreases s@.len() - i,
{
    let n = s.unicode_len();
    let (k, j1) = match parse_string_exec(s, i) {
        Some(p) => p,
        None => {
            return None;
        },
    };
    let j2 = skip_ws_exec(s, j1);
    let ghost w = skip_ws(s@.skip(j1 as int));
    if j2 >= n {
        return None;
    }
    proof {
        assert(w[0] == s@[j2 as int]);
        assert(w.drop_first() =~= s@.skip(j2 as int + 1));
    }
    if s.get_char(j2) != ':' {
        return None;
    }
    let is_ct = crate::strings::str_eq(k.as_str(), "connector_type");
    let is_src = crate::strings::str_eq(k.as_str(), "source_component_values");
    let is_tgt = crate::strings::str_eq(k.as_str(), "target_component_values");
    let is_add = crate::strings::str_eq(k.as_str(), "additional_source_component_values");
    let mut ct2 = ct;
    let mut src2 = src;
    let mut tgt2 = tgt;
    let mut add2 = add;
    let j3: usize;
    if is_ct {
        if ct2.is_some() {
            return None;
        }
        let (v, jx) = match parse_string_exec(s, j2 + 1) {
            Some(p) => p,
            None => {
                return None;
            },
        };
        ct2 = Some(v);
        j3 = jx;
    } else if is_src {
        if src2.is_some() {
            return None;
        }
        let (v, jx) = match parse_strmap_exec(s, j2 + 1) {
            Some(p) => p,
            None => {
                return None;
            },
        };
        src2 = Some(v);
        j3 = jx;
    } else if is_tgt {
        if tgt2.is_some() {
            return None;
        }
        let (v, jx) = match parse_strmap_exec(s, j2 + 1) {
            Some(p) => p,
            None => {
                return None;
            },
        };
        tgt2 = Some(v);
        j3 = jx;
    } else if is_add {
        if add2.is_some() {
            return None;
        }
        let (v, jx) = match parse_strmap_exec(s, j2 + 1) {
            Some(p) => p,
            None => {
                return None;
            },
        };
        add2 = Some(v);
        j3 = jx;
    } else {
        return None;
    }
    let j4 = skip_ws_exec(s, j3);
    let ghost x = skip_ws(s@.skip(j3 as int));
    if j4 >= n {
        return None;
    }
    let c = s.get_char(j4);
    proof {
        assert(x[0] == s@[j4 as int]);
        assert(x.drop_first() =~= s@.skip(j4 as int + 1));
    }
    if c == ',' {
        proof {
            lemma_parse_string_len(s@.skip(i as int));
            lemma_skip_ws_len(s@.skip(j1 as int));
            lemma_parse_string_len(s@.skip(j2 as int + 1));
            lemma_parse_strmap_len(s@.skip(j2 as int + 1));
            lemma_skip_ws_len(s@.skip(j3 as int));
        }
        parse_ci_members_exec(s, j4 + 1, ct2, src2, tgt2, add2)
    } else if c == '}' {
        let ctv = match ct2 {
            Some(v) => v,
            None => {
                return None;
            },
        };
        let srcv = match src2 {
            Some(v) => v,
            None => {
                return None;
            },
        };
        let tgtv = match tgt2 {
            Some(v) => v,
            None => {
                return None;
            },
        };
        let addv = match add2 {
            Some(v) => v,
            None => AttrMap::new(),
        };
        let ci = Ci {
            connector_type: ctv,
            source_component_values: srcv,
            target_component_values: tgtv,
            additional_source_component_values: addv,
        };
        Some((ci, j4 + 1))
    } else {
        None
    }
}

/// Executable mirror of `parse_ci`.
fn parse_ci_exec(s: &str, i: usize) -> (r: Option<(Ci, usize)>)
    requires
        i <= s@.len(),
    ensures
        match r {
            Some(p) => i <= p.1 <= s@.len() && parse_ci(s@.skip(i as int)) == Some(
                (p.0@, s@.skip(p.1 as int)),
            ) && crate::model::ci_wf(p.0@),
            None => parse_ci(s@.skip(i as int)) is None,
        },
{
    let n = s.unicode_len();
    let j0 = skip_ws_exec(s, i);
    let ghost t = skip_ws(s@.skip(i as int));
    if j0 >= n {
        return None;
    }
    proof {
        assert(t[0] == s@[j0 as int]);
        assert(t.drop_first() =~= s@.skip(j0 as int + 1));
    }
    if s.get_char(j0) != '{' {
        return None;
    }
    parse_ci_members_exec(s, j0 + 1, None, None, None, None)
}

/// Executable mirror of `parse_cis_items`.
fn parse_cis_items_exec(s: &str, i: usize) -> (r: Option<(Vec<Ci>, usize)>)
    requires
        i <= s@.len(),
    ensures
        match r {
            Some(p) => i <= p.1 <= s@.len() && parse_cis_items(s@.skip(i as int)) == Some(
                (crate::model::cis_view(p.0@), s@.skip(p.1 as int)),
            ) && (forall|k: int|
                0 <= k < p.0@.len() ==> crate::model::ci_wf(#[trigger] p.0@[k]@)),
            None => parse_cis_items(s@.skip(i as int)) is None,
        },
    decreases s@.len() - i,
{
    let n = s.unicode_len();
    let (c, j1) = match parse_ci_exec(s, i) {
        Some(p) => p,
        None => {
            return None;
        },
    };
    let j2 = skip_ws_exec(s, j1);
    let ghost x = skip_ws(s@.skip(j1 as int));
    if j2 >= n {
        return None;
    }
    let ch = s.get_char(j2);
    proof {
        assert(x[0] == s@[j2 as int]);
        assert(x.drop_first() =~= s@.skip(j2 as int + 1));
    }
    if ch == ',' {
        proof {
            lemma_parse_ci_len(s@.skip(i as int));
            lemma_skip_ws_len(s@.skip(j1 as int));
        }
        match parse_cis_items_exec(s, j2 + 1) {
            Some(p) => {
                let (mut items, j3) = p;
                items.insert(0, c);
                proof {
                    assert(crate::model::cis_view(items@) =~= seq![items@[0]@]
                        + crate::model::cis_view(items@.drop_first()));
                }
                Some((items, j3))
            },
            None => None,
        }
    } else if ch == ']' {
        let mut items: Vec<Ci> = Vec::new();
        items.push(c);
        proof {
            assert(crate::model::cis_view(items@) =~= seq![items@[0]@]);
        }
        Some((items, j2 + 1))
    } else {
        None
    }
}

/// Decodes the ordered sequence of connector instances from the text of an
/// input file.  Succeeds exactly on the texts that `parse_cis_text` accepts,
/// in file order, and every record comes back with well-formed attribute
/// maps.
pub fn parse_cis(s: &str) -> (r: Result<Vec<Ci>, ParseError>)
    ensures
        match r {
            Ok(cis) => parse_cis_text(s@) == Some(crate::model::cis_view(cis@)) && (forall|k: int|
                0 <= k < cis@.len() ==> crate::model::ci_wf(#[trigger] cis@[k]@)),
            Err(_) => parse_cis_text(s@) is None,
        },
{
    let ghost whole = s@;
    proof {
        assert(whole.skip(0) =~= whole);
    }
    let n = s.unicode_len();
    let j0 = skip_ws_exec(s, 0);
    let ghost t = skip_ws(whole);
    if j0 >= n {
        return Err(ParseError);
    }
    proof {
        assert(t[0] == s@[j0 as int]);
        assert(t.drop_first() =~= s@.skip(j0 as int + 1));
    }
    if s.get_char(j0) != '[' {
        return Err(ParseError);
    }
    let j1 = skip_ws_exec(s, j0 + 1);
    let ghost u = skip_ws(s@.skip(j0 as int + 1));
    if j1 < n {
        proof {
            assert(u[0] == s@[j1 as int]);
            assert(u.drop_first() =~= s@.skip(j1 as int + 1));
        }
        if s.get_char(j1) == ']' {
            let j2 = skip_ws_exec(s, j1 + 1);
            if j2 < n {
                proof {
                    assert(skip_ws(s@.skip(j1 as int + 1)).len() > 0);
                }
                return Err(ParseError);
            }
            proof {
                assert(skip_ws(s@.skip(j1 as int + 1)) =~= s@.skip(j2 as int));
                assert(crate::model::cis_view(Seq::<Ci>::empty()) =~= Seq::<CiV>::empty());
            }
            let empty_out: Vec<Ci> = Vec::new();
            proof {
                assert(crate::model::cis_view(empty_out@) =~= Seq::<CiV>::empty());
            }
            return Ok(empty_out);
        }
    }
    match parse_cis_items_exec(s, j0 + 1) {
        Some(p) => {
            let (items, j3) = p;
            let j4 = skip_ws_exec(s, j3);
            if j4 < n {
                proof {
                    assert(skip_ws(s@.skip(j3 as int)).len() > 0);
                }
                return Err(ParseError);
            }
            proof {
                assert(skip_ws(s@.skip(j3 as int)) =~= s@.skip(j4 as int));
            }
            Ok(items)
        },
        None => Err(ParseError),
    }
}

// ---------------------------------------------------------------------------
// Round trip: reading back what was written
// ---------------------------------------------------------------------------
/// Every character of `w` is whitespace.
pub open spec fn all_ws(w: Seq<char>) -> bool {
    forall|i: int| 0 <= i < w.len() ==> crate::json::is_ws_char(#[trigger] w[i])
}

/// An escaped string body followed by its closing quote reads back exactly.
pub proof fn lemma_parse_esc_body(v: Seq<char>, rest: Seq<char>)
    ensures
        crate::json::parse_str_rest(crate::json::esc_str(v) + seq!['"'] + rest) == Some(
            (v, rest),
        ),
    decreases v.len(),
{
    let s = crate::json::esc_str(v) + seq!['"'] + rest;
    if v.len() == 0 {
        assert(s =~= seq!['"'] + rest);
        assert(s[0] == '"');
        assert(s.drop_first() =~= rest);
    } else {
        let c = v[0];
        let v2 = v.drop_first();
        let e = crate::json::esc_char(c);
        let t = crate::json::esc_str(v2) + seq!['"'] + rest;
        assert(s =~= e + t);
        lemma_parse_esc_body(v2, rest);
        if c == '"' {
            assert(s[0] == '\\');
            assert(s[1] == '"');
            assert(s.len() >= 2);
            assert(crate::json::unesc_short(s[1]) == Some('"'));
            assert(s.skip(2) =~= t);
            assert(seq!['"'] + v2 =~= v);
        } else if c == '\\' {
            assert(s[0] == '\\');
            assert(s[1] == '\\');
            assert(crate::json::unesc_short(s[1]) == Some('\\'));
            assert(s.skip(2) =~= t);
            assert(seq!['\\'] + v2 =~= v);
        } else if (c as u32) < 32 {
            let u = c as u32;
            assert(s[0] == '\\');
            assert(s[1] == 'u');
            assert(s[2] == '0');
            assert(s[3] == '0');
            assert(s[4] == crate::json::hex_digit((u / 16) as nat));
            assert(s[5] == crate::json::hex_digit((u % 16) as nat));
            assert(s.len() >= 6);
            crate::json::lemma_hex_of_digit((u / 16) as nat);
            crate::json::lemma_hex_of_digit((u % 16) as nat);
            assert(crate::json::hex_val(s[2]) == 0);
            assert(crate::json::hex_val(s[3]) == 0);
            assert(crate::json::hex_val(s[4]) == u / 16);
            assert(crate::json::hex_val(s[5]) == u % 16);
            let w = (0 * 4096 + 0 * 256 + (u / 16) * 16 + u % 16) as u32;
            assert(w == u);
            assert(crate::json::is_scalar_value(w));
            assert(s.skip(6) =~= t);
            vstd::utf8::char_u32_cast(c, w);
            assert((w as char) == c);
            assert(seq![c] + v2 =~= v);
        } else {
            assert(s[0] == c);
            assert(c != '"' && c != '\\' && (c as u32) >= 32);
            assert(s.drop_first() =~= t);
            assert(seq![c] + v2 =~= v);
        }
    }
}

/// A whitespace run followed by a quoted string token reads back exactly.
pub proof fn lemma_parse_string_tok(w: Seq<char>, v: Seq<char>, rest: Seq<char>)
    requires
        all_ws(w),
    ensures
        parse_string(w + (quot(v) + rest)) == Some((v, rest)),
{
    let s = w + (quot(v) + rest);
    crate::json::lemma_skip_ws_prepend(w, quot(v) + rest);
    assert(skip_ws(s) == skip_ws(quot(v) + rest));
    assert((quot(v) + rest)[0] == '"');
    crate::json::lemma_skip_ws_noop(quot(v) + rest);
    assert((quot(v) + rest).drop_first() =~= crate::json::esc_str(v) + seq!['"'] + rest);
    lemma_parse_esc_body(v, rest);
}

/// The written members of a non-empty attribute map read back exactly.
#[verifier::rlimit(100)]
proof fn lemma_parse_strmap_members_tok(m: RawPairs, rest: Seq<char>)
    requires
        m.len() >= 1,
    ensures
        parse_strmap_members(attrs_entries(m) + (nl_sp(6) + seq!['}'] + rest)) == Some((m, rest)),
    decreases m.len(),
{
    let tail = nl_sp(6) + seq!['}'] + rest;
    let s = attrs_entries(m) + tail;
    let k = m[0].0;
    let v = m[0].1;
    lemma_nl_sp_ws(8);
    assert(all_ws(nl_sp(8)));
    let after_colon =
        if m.len() == 1 {
            seq![':', ' '] + quot(v) + tail
        } else {
            seq![':', ' '] + quot(v) + (seq![','] + attrs_entries(m.drop_first()) + tail)
        };
    if m.len() == 1 {
        assert(s =~= nl_sp(8) + (quot(k) + after_colon));
        lemma_parse_string_tok(nl_sp(8), k, after_colon);
        assert(parse_string(s) == Some((k, after_colon)));
        crate::json::lemma_skip_ws_noop(after_colon);
        assert(skip_ws(after_colon) == after_colon);
        assert(after_colon[0] == ':');
        let tail2 = tail;
        assert(after_colon.drop_first() =~= seq![' '] + (quot(v) + tail2));
        assert(all_ws(seq![' ']));
        lemma_parse_string_tok(seq![' '], v, tail2);
        lemma_nl_sp_ws(6);
        crate::json::lemma_skip_ws_prepend(nl_sp(6), seq!['}'] + rest);
        assert(tail =~= nl_sp(6) + (seq!['}'] + rest));
        crate::json::lemma_skip_ws_noop(seq!['}'] + rest);
        let x = skip_ws(tail);
        assert(x == seq!['}'] + rest);
        assert(x[0] == '}');
        assert(x.drop_first() =~= rest);
        assert(seq![(k, v)] =~= m);
    } else {
        let m2 = m.drop_first();
        let tail2 = seq![','] + attrs_entries(m2) + tail;
        assert(s =~= nl_sp(8) + (quot(k) + after_colon));
        lemma_parse_string_tok(nl_sp(8), k, after_colon);
        assert(parse_string(s) == Some((k, after_colon)));
        crate::json::lemma_skip_ws_noop(after_colon);
        assert(after_colon[0] == ':');
        assert(after_colon.drop_first() =~= seq![' '] + (quot(v) + tail2));
        assert(all_ws(seq![' ']));
        lemma_parse_string_tok(seq![' '], v, tail2);
        crate::json::lemma_skip_ws_noop(tail2);
        let x = skip_ws(tail2);
        assert(x == tail2);
        assert(x[0] == ',');
        assert(x.drop_first() =~= attrs_entries(m2) + tail);
        lemma_parse_strmap_members_tok(m2, rest);
        assert(seq![(k, v)] + m2 =~= m);
    }
}

/// A whitespace run followed by a written attribute map reads back exactly.
#[verifier::rlimit(100)]
pub proof fn lemma_parse_strmap_tok(w: Seq<char>, m: RawPairs, rest: Seq<char>)
    requires
        all_ws(w),
    ensures
        parse_strmap(w + (json_of_attrs(m) + rest)) == Some((m, rest)),
{
    let s = w + (json_of_attrs(m) + rest);
    crate::json::lemma_skip_ws_prepend(w, json_of_attrs(m) + rest);
    assert((json_of_attrs(m) + rest)[0] == '{');
    crate::json::lemma_skip_ws_noop(json_of_attrs(m) + rest);
    let t = skip_ws(s);
    assert(t == json_of_attrs(m) + rest);
    if m.len() == 0 {
        assert(t.drop_first() =~= seq!['}'] + rest);
        crate::json::lemma_skip_ws_noop(seq!['}'] + rest);
        let u = skip_ws(t.drop_first());
        assert(u[0] == '}');
        assert(u.drop_first() =~= rest);
        assert(Seq::<(Seq<char>, Seq<char>)>::empty() =~= m);
    } else {
        let tail = nl_sp(6) + seq!['}'] + rest;
        assert(t.drop_first() =~= attrs_entries(m) + tail);
        // The member list begins with indentation and then a quote, so the
        // empty-object branch is not taken.
        let k = m[0].0;
        let after0 =
            if m.len() == 1 {
                seq![':', ' '] + quot(m[0].1) + tail
            } else {
                seq![':', ' '] + quot(m[0].1) + (seq![','] + attrs_entries(m.drop_first()) + tail)
            };
        assert(t.drop_first() =~= nl_sp(8) + (quot(k) + after0));
        lemma_nl_sp_ws(8);
        crate::json::lemma_skip_ws_prepend(nl_sp(8), quot(k) + after0);
        crate::json::lemma_skip_ws_noop(quot(k) + after0);
        let u = skip_ws(t.drop_first());
        assert(u == quot(k) + after0);
        assert(u[0] == '"');
        lemma_parse_strmap_members_tok(m, rest);
    }
}

/// A whitespace run followed by a written component reads back exactly,
/// provided the component's attribute map has distinct keys.
#[verifier::rlimit(100)]
pub proof fn lemma_parse_component_tok(w: Seq<char>, c: ComponentV, rest: Seq<char>)
    requires
        all_ws(w),
        attrs_wf(c.component_values),
    ensures
        parse_component(w + (json_of_component(c) + rest)) == Some((c, rest)),
{
    let s = w + (json_of_component(c) + rest);
    let r5 = nl_sp(4) + seq!['}'] + rest;
    let r4 = seq![':', ' '] + json_of_attrs(c.component_values) + r5;
    let r3 = seq![','] + (nl_sp(6) + (quot("component_values"@) + r4));
    let r2 = seq![':', ' '] + quot(c.id) + r3;
    let r1 = nl_sp(6) + (quot("id"@) + r2);
    lemma_nl_sp_ws(4);
    lemma_nl_sp_ws(6);
    assert(all_ws(w + nl_sp(4))) by {
        assert(forall|i: int|
            0 <= i < w.len() ==> #[trigger] (w + nl_sp(4))[i] == w[i]);
        assert(forall|i: int|
            w.len() <= i < (w + nl_sp(4)).len() ==> #[trigger] (w + nl_sp(4))[i] == nl_sp(4)[i
                - w.len()]);
    }
    assert(s =~= (w + nl_sp(4)) + (seq!['{'] + r1));
    crate::json::lemma_skip_ws_prepend(w + nl_sp(4), seq!['{'] + r1);
    crate::json::lemma_skip_ws_noop(seq!['{'] + r1);
    let t = skip_ws(s);
    assert(t == seq!['{'] + r1);
    assert(t[0] == '{');
    assert(t.drop_first() =~= nl_sp(6) + (quot("id"@) + r2));
    lemma_parse_string_tok(nl_sp(6), "id"@, r2);
    assert(parse_string(t.drop_first()) == Some(("id"@, r2)));
    crate::json::lemma_skip_ws_noop(r2);
    assert(r2[0] == ':');
    assert(r2.drop_first() =~= seq![' '] + (quot(c.id) + r3));
    assert(all_ws(seq![' ']));
    lemma_parse_string_tok(seq![' '], c.id, r3);
    crate::json::lemma_skip_ws_noop(r3);
    assert(r3[0] == ',');
    assert(r3.drop_first() =~= nl_sp(6) + (quot("component_values"@) + r4));
    lemma_parse_string_tok(nl_sp(6), "component_values"@, r4);
    crate::json::lemma_skip_ws_noop(r4);
    assert(r4[0] == ':');
    assert(r4.drop_first() =~= seq![' '] + (json_of_attrs(c.component_values) + r5));
    lemma_parse_strmap_tok(seq![' '], c.component_values, r5);
    crate::json::lemma_skip_ws_prepend(nl_sp(4), seq!['}'] + rest);
    assert(r5 =~= nl_sp(4) + (seq!['}'] + rest));
    crate::json::lemma_skip_ws_noop(seq!['}'] + rest);
    let w4 = skip_ws(r5);
    assert(w4 == seq!['}'] + rest);
    assert(w4[0] == '}');
    assert(w4.drop_first() =~= rest);
    lemma_attrs_from_pairs_id(c.component_values);
    assert(ComponentV { id: c.id, component_values: attrs_from_pairs(c.component_values) } == c);
}

/// A whitespace run followed by a written connector reads back exactly.
#[verifier::rlimit(100)]
pub proof fn lemma_parse_connector_tok(w: Seq<char>, c: ConnectorV, rest: Seq<char>)
    requires
        all_ws(w),
    ensures
        parse_connector(w + (json_of_connector(c) + rest)) == Some((c, rest)),
{
    let s = w + (json_of_connector(c) + rest);
    let r7 = nl_sp(4) + seq!['}'] + rest;
    let r6 = seq![':', ' '] + quot(c.target_component_id) + r7;
    let r5 = seq![','] + (nl_sp(6) + (quot("target_component_id"@) + r6));
    let r4 = seq![':', ' '] + quot(c.source_component_id) + r5;
    let r3 = seq![','] + (nl_sp(6) + (quot("source_component_id"@) + r4));
    let r2 = seq![':', ' '] + quot(c.connector_type) + r3;
    let r1 = nl_sp(6) + (quot("connector_type"@) + r2);
    lemma_nl_sp_ws(4);
    lemma_nl_sp_ws(6);
    assert(all_ws(w + nl_sp(4))) by {
        assert(forall|i: int|
            0 <= i < w.len() ==> #[trigger] (w + nl_sp(4))[i] == w[i]);
        assert(forall|i: int|
            w.len() <= i < (w + nl_sp(4)).len() ==> #[trigger] (w + nl_sp(4))[i] == nl_sp(4)[i
                - w.len()]);
    }
    assert(s =~= (w + nl_sp(4)) + (seq!['{'] + r1));
    crate::json::lemma_skip_ws_prepend(w + nl_sp(4), seq!['{'] + r1);
    crate::json::lemma_skip_ws_noop(seq!['{'] + r1);
    let t = skip_ws(s);
    assert(t == seq!['{'] + r1);
    assert(t[0] == '{');
    assert(t.drop_first() =~= nl_sp(6) + (quot("connector_type"@) + r2));
    lemma_parse_string_tok(nl_sp(6), "connector_type"@, r2);
    crate::json::lemma_skip_ws_noop(r2);
    assert(r2[0] == ':');
    assert(r2.drop_first() =~= seq![' '] + (quot(c.connector_type) + r3));
    assert(all_ws(seq![' ']));
    lemma_parse_string_tok(seq![' '], c.connector_type, r3);
    crate::json::lemma_skip_ws_noop(r3);
    assert(r3[0] == ',');
    assert(r3.drop_first() =~= nl_sp(6) + (quot("source_component_id"@) + r4));
    lemma_parse_string_tok(nl_sp(6), "source_component_id"@, r4);
    crate::json::lemma_skip_ws_noop(r4);
    assert(r4[0] == ':');
    assert(r4.drop_first() =~= seq![' '] + (quot(c.source_component_id) + r5));
    lemma_parse_string_tok(seq![' '], c.source_component_id, r5);
    crate::json::lemma_skip_ws_noop(r5);
    assert(r5[0] == ',');
    assert(r5.drop_first() =~= nl_sp(6) + (quot("target_component_id"@) + r6));
    lemma_parse_string_tok(nl_sp(6), "target_component_id"@, r6);
    crate::json::lemma_skip_ws_noop(r6);
    assert(r6[0] == ':');
    assert(r6.drop_first() =~= seq![' '] + (quot(c.target_component_id) + r7));
    lemma_parse_string_tok(seq![' '], c.target_component_id, r7);
    crate::json::lemma_skip_ws_prepend(nl_sp(4), seq!['}'] + rest);
    assert(r7 =~= nl_sp(4) + (seq!['}'] + rest));
    crate::json::lemma_skip_ws_noop(seq!['}'] + rest);
    let w6 = skip_ws(r7);
    assert(w6 == seq!['}'] + rest);
    assert(w6[0] == '}');
    assert(w6.drop_first() =~= rest);
    assert(ConnectorV {
        connector_type: c.connector_type,
        source_component_id: c.source_component_id,
        target_component_id: c.target_component_id,
    } == c);
}

#[verifier::rlimit(100)]
proof fn lemma_parse_components_items_tok(cs: Seq<ComponentV>, rest: Seq<char>)
    requires
        cs.len() >= 1,
        forall|i: int| 0 <= i < cs.len() ==> attrs_wf(#[trigger] cs[i].component_values),
    ensures
        parse_components_items(components_entries(cs) + (nl_sp(2) + seq![']'] + rest)) == Some(
            (cs, rest),
        ),
    decreases cs.len(),
{
    let tail = nl_sp(2) + seq![']'] + rest;
    let s = components_entries(cs) + tail;
    if cs.len() == 1 {
        assert(s =~= Seq::<char>::empty() + (json_of_component(cs[0]) + tail));
        lemma_parse_component_tok(Seq::empty(), cs[0], tail);
        lemma_nl_sp_ws(2);
        crate::json::lemma_skip_ws_prepend(nl_sp(2), seq![']'] + rest);
        assert(tail =~= nl_sp(2) + (seq![']'] + rest));
        crate::json::lemma_skip_ws_noop(seq![']'] + rest);
        let x = skip_ws(tail);
        assert(x == seq![']'] + rest);
        assert(x[0] == ']');
        assert(x.drop_first() =~= rest);
        assert(seq![cs[0]] =~= cs);
    } else {
        let cs2 = cs.drop_first();
        let tail2 = seq![','] + components_entries(cs2) + tail;
        assert(s =~= Seq::<char>::empty() + (json_of_component(cs[0]) + tail2));
        lemma_parse_component_tok(Seq::empty(), cs[0], tail2);
        crate::json::lemma_skip_ws_noop(tail2);
        let x = skip_ws(tail2);
        assert(x == tail2);
        assert(x[0] == ',');
        assert(x.drop_first() =~= components_entries(cs2) + tail);
        assert(forall|i: int|
            0 <= i < cs2.len() ==> attrs_wf(#[trigger] cs2[i].component_values)) by {
            assert(forall|i: int| 0 <= i < cs2.len() ==> cs2[i] == cs[i + 1]);
        }
        lemma_parse_components_items_tok(cs2, rest);
        assert(seq![cs[0]] + cs2 =~= cs);
    }
}

/// A whitespace run followed by a written component array reads back exactly.
#[verifier::rlimit(100)]
pub proof fn lemma_parse_components_tok(w: Seq<char>, cs: Seq<ComponentV>, rest: Seq<char>)
    requires
        all_ws(w),
        forall|i: int| 0 <= i < cs.len() ==> attrs_wf(#[trigger] cs[i].component_values),
    ensures
        parse_components(w + (json_of_components(cs) + rest)) == Some((cs, rest)),
{
    let s = w + (json_of_components(cs) + rest);
    crate::json::lemma_skip_ws_prepend(w, json_of_components(cs) + rest);
    assert((json_of_components(cs) + rest)[0] == '[');
    crate::json::lemma_skip_ws_noop(json_of_components(cs) + rest);
    let t = skip_ws(s);
    assert(t == json_of_components(cs) + rest);
    if cs.len() == 0 {
        assert(t.drop_first() =~= seq![']'] + rest);
        crate::json::lemma_skip_ws_noop(seq![']'] + rest);
        let u = skip_ws(t.drop_first());
        assert(u[0] == ']');
        assert(u.drop_first() =~= rest);
        assert(Seq::<ComponentV>::empty() =~= cs);
    } else {
        let tail = nl_sp(2) + seq![']'] + rest;
        assert(t.drop_first() =~= components_entries(cs) + tail);
        let e = components_entries(cs) + tail;
        assert(nl_sp(4).len() == 5) by {
            reveal_with_fuel(sp, 6);
        }
        assert(json_of_component(cs[0]).len() >= 6);
        assert(json_of_component(cs[0])[5] == '{');
        assert(e[5] == '{');
        assert(e =~= nl_sp(4) + e.skip(5));
        lemma_nl_sp_ws(4);
        crate::json::lemma_skip_ws_prepend(nl_sp(4), e.skip(5));
        assert(e.skip(5)[0] == e[5]);
        crate::json::lemma_skip_ws_noop(e.skip(5));
        let u = skip_ws(t.drop_first());
        assert(u == e.skip(5));
        assert(u[0] == '{');
        lemma_parse_components_items_tok(cs, rest);
    }
}

#[verifier::rlimit(100)]
proof fn lemma_parse_connectors_items_tok(cs: Seq<ConnectorV>, rest: Seq<char>)
    requires
        cs.len() >= 1,
    ensures
        parse_connectors_items(connectors_entries(cs) + (nl_sp(2) + seq![']'] + rest)) == Some(
            (cs, rest),
        ),
    decreases cs.len(),
{
    let tail = nl_sp(2) + seq![']'] + rest;
    let s = connectors_entries(cs) + tail;
    if cs.len() == 1 {
        assert(s =~= Seq::<char>::empty() + (json_of_connector(cs[0]) + tail));
        lemma_parse_connector_tok(Seq::empty(), cs[0], tail);
        lemma_nl_sp_ws(2);
        crate::json::lemma_skip_ws_prepend(nl_sp(2), seq![']'] + rest);
        assert(tail =~= nl_sp(2) + (seq![']'] + rest));
        crate::json::lemma_skip_ws_noop(seq![']'] + rest);
        let x = skip_ws(tail);
        assert(x == seq![']'] + rest);
        assert(x[0] == ']');
        assert(x.drop_first() =~= rest);
        assert(seq![cs[0]] =~= cs);
    } else {
        let cs2 = cs.drop_first();
        let tail2 = seq![','] + connectors_entries(cs2) + tail;
        assert(s =~= Seq::<char>::empty() + (json_of_connector(cs[0]) + tail2));
        lemma_parse_connector_tok(Seq::empty(), cs[0], tail2);
        crate::json::lemma_skip_ws_noop(tail2);
        let x = skip_ws(tail2);
        assert(x == tail2);
        assert(x[0] == ',');
        assert(x.drop_first() =~= connectors_entries(cs2) + tail);
        lemma_parse_connectors_items_tok(cs2, rest);
        assert(seq![cs[0]] + cs2 =~= cs);
    }
}

/// A whitespace run followed by a written connector array reads back exactly.
#[verifier::rlimit(100)]
pub proof fn lemma_parse_connectors_tok(w: Seq<char>, cs: Seq<ConnectorV>, rest: Seq<char>)
    requires
        all_ws(w),
    ensures
        parse_connectors(w + (json_of_connectors(cs) + rest)) == Some((cs, rest)),
{
    let s = w + (json_of_connectors(cs) + rest);
    crate::json::lemma_skip_ws_prepend(w, json_of_connectors(cs) + rest);
    assert((json_of_connectors(cs) + rest)[0] == '[');
    crate::json::lemma_skip_ws_noop(json_of_connectors(cs) + rest);
    let t = skip_ws(s);
    assert(t == json_of_connectors(cs) + rest);
    if cs.len() == 0 {
        assert(t.drop_first() =~= seq![']'] + rest);
        crate::json::lemma_skip_ws_noop(seq![']'] + rest);
        let u = skip_ws(t.drop_first());
        assert(u[0] == ']');
        assert(u.drop_first() =~= rest);
        assert(Seq::<ConnectorV>::empty() =~= cs);
    } else {
        let tail = nl_sp(2) + seq![']'] + rest;
        assert(t.drop_first() =~= connectors_entries(cs) + tail);
        let e = connectors_entries(cs) + tail;
        assert(nl_sp(4).len() == 5) by {
            reveal_with_fuel(sp, 6);
        }
        assert(json_of_connector(cs[0]).len() >= 6);
        assert(json_of_connector(cs[0])[5] == '{');
        assert(e[5] == '{');
        assert(e =~= nl_sp(4) + e.skip(5));
        lemma_nl_sp_ws(4);
        crate::json::lemma_skip_ws_prepend(nl_sp(4), e.skip(5));
        assert(e.skip(5)[0] == e[5]);
        crate::json::lemma_skip_ws_noop(e.skip(5));
        let u = skip_ws(t.drop_first());
        assert(u == e.skip(5));
        assert(u[0] == '{');
        lemma_parse_connectors_items_tok(cs, rest);
    }
}

/// JSON round trip: writing a model and reading the text back yields the very
/// same model — same ids, same attribute maps, same connector triples, same
/// order.  The only assumption is the attribute-map invariant (distinct
/// keys), which every map built by this library satisfies.
#[verifier::rlimit(100)]
pub proof fn lemma_model_json_round_trip(m: ModelV)
    requires
        forall|i: int|
            0 <= i < m.components.len() ==> attrs_wf(#[trigger] m.components[i].component_values),
    ensures
        parse_model_text(json_of_model(m)) == Some(m),
{
    let s = json_of_model(m);
    let r5 = seq!['\n', '}'];
    let r4 = seq![':', ' '] + json_of_connectors(m.connectors) + r5;
    let r3 = seq![','] + (nl_sp(2) + (quot("connectors"@) + r4));
    let r2 = seq![':', ' '] + json_of_components(m.components) + r3;
    let r1 = nl_sp(2) + (quot("components"@) + r2);
    assert(s =~= seq!['{'] + r1);
    crate::json::lemma_skip_ws_noop(seq!['{'] + r1);
    let t = skip_ws(s);
    assert(t == seq!['{'] + r1);
    assert(t[0] == '{');
    assert(t.drop_first() =~= nl_sp(2) + (quot("components"@) + r2));
    lemma_nl_sp_ws(2);
    lemma_parse_string_tok(nl_sp(2), "components"@, r2);
    crate::json::lemma_skip_ws_noop(r2);
    assert(r2[0] == ':');
    assert(r2.drop_first() =~= seq![' '] + (json_of_components(m.components) + r3));
    assert(all_ws(seq![' ']));
    lemma_parse_components_tok(seq![' '], m.components, r3);
    crate::json::lemma_skip_ws_noop(r3);
    assert(r3[0] == ',');
    assert(r3.drop_first() =~= nl_sp(2) + (quot("connectors"@) + r4));
    lemma_parse_string_tok(nl_sp(2), "connectors"@, r4);
    crate::json::lemma_skip_ws_noop(r4);
    assert(r4[0] == ':');
    assert(r4.drop_first() =~= seq![' '] + (json_of_connectors(m.connectors) + r5));
    lemma_parse_connectors_tok(seq![' '], m.connectors, r5);
    assert(r5 =~= seq!['\n'] + (seq!['}'] + Seq::<char>::empty()));
    assert(all_ws(seq!['\n']));
    crate::json::lemma_skip_ws_prepend(seq!['\n'], seq!['}'] + Seq::<char>::empty());
    crate::json::lemma_skip_ws_noop(seq!['}'] + Seq::<char>::empty());
    let w4 = skip_ws(r5);
    assert(w4 == seq!['}'] + Seq::<char>::empty());
    assert(w4[0] == '}');
    assert(w4.drop_first() =~= Seq::<char>::empty());
    assert(skip_ws(w4.drop_first()).len() == 0);
    assert(ModelV { components: m.components, connectors: m.connectors } == m);
}

} // verus!
