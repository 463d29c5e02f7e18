//! Rendering a model as Graphviz DOT text, and selection of the output
//! format.
//!
//! The DOT form has one node statement per component, labelled with every
//! `key:value` pair of its attribute map whose value is non-empty (one pair
//! per label line), and one edge statement per connector, labelled with the
//! connector type.  Quotes and backslashes inside identifiers and labels are
//! escaped.

use vstd::prelude::*;

use crate::attrs::{AttrMap, AttrsView};
use crate::codec::{json_of_model, model_to_json};
use crate::model::{Component, ComponentV, Connector, ConnectorV, Model, ModelV};
use crate::strings::push_char;

verus! {

/// How one character is written inside a DOT double-quoted string.
pub open spec fn dot_esc_char(c: char) -> Seq<char> {
    if c == '"' {
        seq!['\\', '"']
    } else if c == '\\' {
        seq!['\\', '\\']
    } else {
        seq![c]
    }
}

pub open spec fn dot_esc(s: Seq<char>) -> Seq<char>
    decreases s.len(),
{
    if s.len() == 0 {
        Seq::empty()
    } else {
        dot_esc_char(s[0]) + dot_esc(s.drop_first())
    }
}

proof fn lemma_dot_esc_snoc(s: Seq<char>, c: char)
    ensures
        dot_esc(s.push(c)) == dot_esc(s) + dot_esc_char(c),
    decreases s.len(),
{
    if s.len() == 0 {
        reveal_with_fuel(dot_esc, 3);
        assert(s.push(c)[0] == c);
        assert(s.push(c).drop_first() =~= Seq::<char>::empty());
        assert(dot_esc(s.push(c)) =~= dot_esc_char(c));
        assert(dot_esc(s) + dot_esc_char(c) =~= dot_esc_char(c));
    } else {
        assert(s.push(c)[0] == s[0]);
        assert(s.push(c).drop_first() =~= s.drop_first().push(c));
        lemma_dot_esc_snoc(s.drop_first(), c);
        assert(dot_esc(s.push(c)) == dot_esc_char(s[0]) + (dot_esc(s.drop_first())
            + dot_esc_char(c)));
        assert(dot_esc_char(s[0]) + (dot_esc(s.drop_first()) + dot_esc_char(c)) =~= (dot_esc_char(
            s[0],
        ) + dot_esc(s.drop_first())) + dot_esc_char(c));
    }
}

/// The label text of a node: `key:value` for every entry whose value is
/// non-empty, each followed by the two characters `\n` (a DOT line break).
pub open spec fn dot_label_body(m: AttrsView) -> Seq<char>
    decreases m.len(),
{
    if m.len() == 0 {
        Seq::empty()
    } else {
        (if m[0].1.len() > 0 {
            dot_esc(m[0].0) + seq![':'] + dot_esc(m[0].1) + seq!['\\', 'n']
        } else {
            Seq::empty()
        }) + dot_label_body(m.drop_first())
    }
}

/// The characters `label="`.
pub open spec fn dot_label_intro() -> Seq<char> {
    seq!['l', 'a', 'b', 'e', 'l', '=', '"']
}

/// One node statement: `  "id" [label="..."]` on its own line.
pub open spec fn dot_node_stmt(c: ComponentV) -> Seq<char> {
    seq![' ', ' ', '"'] + dot_esc(c.id) + seq!['"', ' ', '['] + dot_label_intro() + dot_label_body(
        c.component_values,
    ) + seq!['"', ']', '\n']
}

pub open spec fn dot_node_stmts(cs: Seq<ComponentV>) -> Seq<char>
    decreases cs.len(),
{
    if cs.len() == 0 {
        Seq::empty()
    } else {
        dot_node_stmt(cs[0]) + dot_node_stmts(cs.drop_first())
    }
}

/// One edge statement: `  "src" -> "tgt" [label="type"]` on its own line.
pub open spec fn dot_edge_stmt(c: ConnectorV) -> Seq<char> {
    seq![' ', ' ', '"'] + dot_esc(c.source_component_id) + seq!['"', ' ', '-', '>', ' ', '"']
        + dot_esc(c.target_component_id) + seq!['"', ' ', '['] + dot_label_intro() + dot_esc(
        c.connector_type,
    ) + seq!['"', ']', '\n']
}

pub open spec fn dot_edge_stmts(cs: Seq<ConnectorV>) -> Seq<char>
    decreases cs.len(),
{
    if cs.len() == 0 {
        Seq::empty()
    } else {
        dot_edge_stmt(cs[0]) + dot_edge_stmts(cs.drop_first())
    }
}

/// The DOT text of a model: a directed graph named `model` with one node
/// statement per component and one edge statement per connector, in
/// insertion order.
pub open spec fn dot_of_model(m: ModelV) -> Seq<char> {
    seq!['d', 'i', 'g', 'r', 'a', 'p', 'h', ' ', 'm', 'o', 'd', 'e', 'l', ' ', '{', '\n']
        + dot_node_stmts(m.components) + dot_edge_stmts(m.connectors) + seq!['}', '\n']
}

/// Appends the DOT-escaped form of `s`.
fn push_dot_escaped(out: &mut String, s: &str)
    ensures
        final(out)@ == old(out)@ + dot_esc(s@),
{
    let n = s.unicode_len();
    let mut i: usize = 0;
    while i < n
        invariant
            i <= n,
            n == s@.len(),
            out@ == old(out)@ + dot_esc(s@.take(i as int)),
        decreases n - i,
    {
        let c = s.get_char(i);
        if c == '"' {
            push_char(out, '\\');
            push_char(out, '"');
        } else if c == '\\' {
            push_char(out, '\\');
            push_char(out, '\\');
        } else {
            push_char(out, c);
        }
        proof {
            assert(s@.take(i as int).push(s@[i as int]) =~= s@.take(i as int + 1));
            lemma_dot_esc_snoc(s@.take(i as int), s@[i as int]);
            assert(out@ =~= old(out)@ + dot_esc(s@.take(i as int + 1)));
        }
        i = i + 1;
    }
    proof {
        assert(s@.take(n as int) =~= s@);
    }
}

fn push_label_intro(out: &mut String)
    ensures
        final(out)@ == old(out)@ + dot_label_intro(),
{
    push_char(out, 'l');
    push_char(out, 'a');
    push_char(out, 'b');
    push_char(out, 'e');
    push_char(out, 'l');
    push_char(out, '=');
    push_char(out, '"');
    proof {
        assert(out@ =~= old(out)@ + dot_label_intro());
    }
}

fn write_label_body(out: &mut String, m: &AttrMap, i: usize)
    requires
        i <= m@.len(),
    ensures
        final(out)@ == old(out)@ + dot_label_body(m@.skip(i as int)),
    decreases m@.len() - i,
{
    let n = m.len();
    if i >= n {
        proof {
            assert(m@.skip(i as int) =~= Seq::<(Seq<char>, Seq<char>)>::empty());
            assert(out@ =~= old(out)@ + dot_label_body(m@.skip(i as int)));
        }
        return;
    }
    proof {
        assert(m@.skip(i as int)[0] == m@[i as int]);
        assert(m@.skip(i as int).drop_first() =~= m@.skip(i as int + 1));
    }
    if !m.value_at(i).as_str().is_empty() {
        push_dot_escaped(out, m.key_at(i).as_str());
        push_char(out, ':');
        push_dot_escaped(out, m.value_at(i).as_str());
        push_char(out, '\\');
        push_char(out, 'n');
    }
    write_label_body(out, m, i + 1);
    proof {
        assert(out@ =~= old(out)@ + dot_label_body(m@.skip(i as int)));
    }
}

fn write_node_stmt(out: &mut String, c: &Component)
    ensures
        final(out)@ == old(out)@ + dot_node_stmt(c@),
{
    push_char(out, ' ');
    push_char(out, ' ');
    push_char(out, '"');
    push_dot_escaped(out, c.id.as_str());
    push_char(out, '"');
    push_char(out, ' ');
    push_char(out, '[');
    push_label_intro(out);
    proof {
        assert(c.component_values@.skip(0) =~= c.component_values@);
    }
    write_label_body(out, &c.component_values, 0);
    push_char(out, '"');
    push_char(out, ']');
    push_char(out, '\n');
    proof {
        assert(out@ =~= old(out)@ + dot_node_stmt(c@));
    }
}

fn write_edge_stmt(out: &mut String, c: &Connector)
    ensures
        final(out)@ == old(out)@ + dot_edge_stmt(c@),
{
    push_char(out, ' ');
    push_char(out, ' ');
    push_char(out, '"');
    push_dot_escaped(out, c.source_component_id.as_str());
    push_char(out, '"');
    push_char(out, ' ');
    push_char(out, '-');
    push_char(out, '>');
    push_char(out, ' ');
    push_char(out, '"');
    push_dot_escaped(out, c.target_component_id.as_str());
    push_char(out, '"');
    push_char(out, ' ');
    push_char(out, '[');
    push_label_intro(out);
    push_dot_escaped(out, c.connector_type.as_str());
    push_char(out, '"');
    push_char(out, ']');
    push_char(out, '\n');
    proof {
        assert(out@ =~= old(out)@ + dot_edge_stmt(c@));
    }
}

fn write_node_stmts(out: &mut String, v: &Vec<Component>, i: usize)
    requires
        i <= v@.len(),
    ensures
        final(out)@ == old(out)@ + dot_node_stmts(crate::model::components_view(v@).skip(i as int)),
    decreases v@.len() - i,
{
    let ghost cs = crate::model::components_view(v@);
    let n = v.len();
    if i >= n {
        proof {
            assert(cs.skip(i as int) =~= Seq::<ComponentV>::empty());
            assert(out@ =~= old(out)@ + dot_node_stmts(cs.skip(i as int)));
        }
        return;
    }
    write_node_stmt(out, &v[i]);
    proof {
        assert(cs[i as int] == v@[i as int]@);
        assert(cs.skip(i as int)[0] == cs[i as int]);
        assert(cs.skip(i as int).drop_first() =~= cs.skip(i as int + 1));
    }
    write_node_stmts(out, v, i + 1);
    proof {
        assert(out@ =~= old(out)@ + dot_node_stmts(cs.skip(i as int)));
    }
}

fn write_edge_stmts(out: &mut String, v: &Vec<Connector>, i: usize)
    requires
        i <= v@.len(),
    ensures
        final(out)@ == old(out)@ + dot_edge_stmts(crate::model::connectors_view(v@).skip(i as int)),
    decreases v@.len() - i,
{
    let ghost cs = crate::model::connectors_view(v@);
    let n = v.len();
    if i >= n {
        proof {
            assert(cs.skip(i as int) =~= Seq::<ConnectorV>::empty());
            assert(out@ =~= old(out)@ + dot_edge_stmts(cs.skip(i as int)));
        }
        return;
    }
    write_edge_stmt(out, &v[i]);
    proof {
        assert(cs[i as int] == v@[i as int]@);
        assert(cs.skip(i as int)[0] == cs[i as int]);
        assert(cs.skip(i as int).drop_first() =~= cs.skip(i as int + 1));
    }
    write_edge_stmts(out, v, i + 1);
    proof {
        assert(out@ =~= old(out)@ + dot_edge_stmts(cs.skip(i as int)));
    }
}

/// Renders a model as DOT text, exactly `dot_of_model` of its view.
pub fn model_to_dot(m: &Model) -> (r: String)
    ensures
        r@ == dot_of_model(m@),
{
    let mut out = String::new();
    push_char(&mut out, 'd');
    push_char(&mut out, 'i');
    push_char(&mut out, 'g');
    push_char(&mut out, 'r');
    push_char(&mut out, 'a');
    push_char(&mut out, 'p');
    push_char(&mut out, 'h');
    push_char(&mut out, ' ');
    push_char(&mut out, 'm');
    push_char(&mut out, 'o');
    push_char(&mut out, 'd');
    push_char(&mut out, 'e');
    push_char(&mut out, 'l');
    push_char(&mut out, ' ');
    push_char(&mut out, '{');
    push_char(&mut out, '\n');
    proof {
        assert(crate::model::components_view(m.components@).skip(0)
            =~= crate::model::components_view(m.components@));
        assert(crate::model::connectors_view(m.connectors@).skip(0)
            =~= crate::model::connectors_view(m.connectors@));
    }
    write_node_stmts(&mut out, &m.components, 0);
    write_edge_stmts(&mut out, &m.connectors, 0);
    push_char(&mut out, '}');
    push_char(&mut out, '\n');
    proof {
        assert(out@ =~= dot_of_model(m@));
    }
    out
}

// ---------------------------------------------------------------------------
// Output format selection
// ---------------------------------------------------------------------------
/// What the caller must do with a rendered model: write text to the output
/// file, or hand DOT text to the external layout engine for a PNG.
pub enum RenderPlan {
    WriteText(String),
    RenderPng(String),
}

/// The text produced for a format selector: DOT text for `"dot"` and
/// `"png"`, and the JSON dump for `"json"` and for every unrecognized
/// selector.
pub open spec fn rendered_text(m: ModelV, format: Seq<char>) -> Seq<char> {
    if format == "dot"@ || format == "png"@ {
        dot_of_model(m)
    } else {
        json_of_model(m)
    }
}

/// Selects the output form of a model.  `"dot"` and `"json"` yield text to
/// be written as-is; `"png"` yields DOT text to be rendered by the external
/// layout engine; any unrecognized selector falls back to the JSON form.
pub fn render_model(m: &Model, output_format: &str) -> (r: RenderPlan)
    ensures
        (r matches RenderPlan::RenderPng(d)) <==> output_format@ == "png"@,
        r matches RenderPlan::WriteText(t) ==> t@ == rendered_text(m@, output_format@),
        r matches RenderPlan::RenderPng(d) ==> d@ == rendered_text(m@, output_format@),
{
    proof {
        reveal_strlit("dot");
        reveal_strlit("png");
        assert("dot"@[0] != "png"@[0]);
    }
    if crate::strings::str_eq(output_format, "dot") {
        RenderPlan::WriteText(model_to_dot(m))
    } else if crate::strings::str_eq(output_format, "png") {
        RenderPlan::RenderPng(model_to_dot(m))
    } else {
        RenderPlan::WriteText(model_to_json(m))
    }
}

/// The whole core pipeline on plain values: decodes the connector instances
/// from the input text, folds them into a model, and renders the model in
/// the selected format.  Fails exactly when the input text is not a
/// well-formed connector-instance file.
pub fn build_and_render(text: &str, output_format: &str) -> (r: Result<
    RenderPlan,
    crate::codec::ParseError,
>)
    ensures
        match r {
            Ok(plan) => ({
                let cis = crate::codec::parse_cis_text(text@);
                &&& cis is Some
                &&& (plan matches RenderPlan::RenderPng(d)) <==> output_format@ == "png"@
                &&& (plan matches RenderPlan::WriteText(t) ==> t@ == rendered_text(
                    crate::model::spec_build(cis->0),
                    output_format@,
                ))
                &&& (plan matches RenderPlan::RenderPng(d) ==> d@ == rendered_text(
                    crate::model::spec_build(cis->0),
                    output_format@,
                ))
            }),
            Err(_) => crate::codec::parse_cis_text(text@) is None,
        },
{
    match crate::codec::parse_cis(text) {
        Ok(cis) => Ok(render_model(&crate::model::build_model(cis), output_format)),
        Err(e) => Err(e),
    }
}

/// Fallback format law: any selector other than `"dot"` and `"png"` — for
/// example `"xml"` — produces exactly the bytes of the `"json"` form.
pub proof fn lemma_fallback_format(m: ModelV, format: Seq<char>)
    requires
        format != "dot"@,
        format != "png"@,
    ensures
        rendered_text(m, format) == rendered_text(m, "json"@),
{
    reveal_strlit("json");
    reveal_strlit("dot");
    reveal_strlit("png");
    assert("json"@.len() == 4);
    assert("dot"@.len() == 3);
    assert("png"@.len() == 3);
}

} // verus!
