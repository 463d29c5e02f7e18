//! Tests of the DOT renderer and the output-format selection.

use sarex::attrs::AttrMap;
use sarex::codec::{model_to_json, parse_cis};
use sarex::dot::{model_to_dot, render_model, RenderPlan};
use sarex::model::{build_model, Ci};

fn sample_model() -> sarex::model::Model {
    build_model(
        parse_cis(
            r#"[{"connector_type":"calls","source_component_values":{"name":"A"},"target_component_values":{"name":"B"},"additional_source_component_values":{"lang":"go"}}]"#,
        )
        .unwrap(),
    )
}

#[test]
fn dot_text_shape() {
    let model = sample_model();
    let text = model_to_dot(&model);
    let expected = "digraph model {\n  \"c0\" [label=\"name:A\\nlang:go\\n\"]\n  \"c1\" [label=\"name:B\\n\"]\n  \"c0\" -> \"c1\" [label=\"calls\"]\n}\n";
    assert_eq!(text, expected);
}

#[test]
fn dot_skips_empty_values() {
    let mut src = AttrMap::new();
    src.set("name".to_string(), "A".to_string());
    src.set("empty".to_string(), String::new());
    let mut tgt = AttrMap::new();
    tgt.set("name".to_string(), "B".to_string());
    let model = build_model(vec![Ci {
        connector_type: "t".to_string(),
        source_component_values: src,
        target_component_values: tgt,
        additional_source_component_values: AttrMap::new(),
    }]);
    let text = model_to_dot(&model);
    assert!(!text.contains("empty"));
    assert!(text.contains("name:A"));
}

#[test]
fn dot_escapes_quotes_and_backslashes() {
    let mut src = AttrMap::new();
    src.set("k".to_string(), "a\"b\\c".to_string());
    let mut tgt = AttrMap::new();
    tgt.set("n".to_string(), "B".to_string());
    let model = build_model(vec![Ci {
        connector_type: "t".to_string(),
        source_component_values: src,
        target_component_values: tgt,
        additional_source_component_values: AttrMap::new(),
    }]);
    let text = model_to_dot(&model);
    assert!(text.contains("k:a\\\"b\\\\c"));
}

#[test]
fn render_selects_json() {
    let model = sample_model();
    match render_model(&model, "json") {
        RenderPlan::WriteText(t) => assert_eq!(t, model_to_json(&model)),
        RenderPlan::RenderPng(_) => panic!("json must not render a png"),
    }
}

#[test]
fn render_selects_dot() {
    let model = sample_model();
    match render_model(&model, "dot") {
        RenderPlan::WriteText(t) => assert_eq!(t, model_to_dot(&model)),
        RenderPlan::RenderPng(_) => panic!("dot must not render a png"),
    }
}

#[test]
fn render_selects_png() {
    let model = sample_model();
    match render_model(&model, "png") {
        RenderPlan::RenderPng(d) => assert_eq!(d, model_to_dot(&model)),
        RenderPlan::WriteText(_) => panic!("png must hand dot text to the layout engine"),
    }
}

#[test]
fn fallback_format() {
    // Any unrecognized selector produces output byte-identical to "json".
    let model = sample_model();
    let json = match render_model(&model, "json") {
        RenderPlan::WriteText(t) => t,
        RenderPlan::RenderPng(_) => panic!("json must not render a png"),
    };
    for selector in ["xml", "", "JSON", "yaml", "Dot"] {
        match render_model(&model, selector) {
            RenderPlan::WriteText(t) => assert_eq!(t, json),
            RenderPlan::RenderPng(_) => panic!("fallback must not render a png"),
        }
    }
}

#[test]
fn build_and_render_pipeline() {
    let text = r#"[{"connector_type":"calls","source_component_values":{"name":"A"},"target_component_values":{"name":"B"},"additional_source_component_values":{"lang":"go"}}]"#;
    let model = sample_model();
    match sarex::dot::build_and_render(text, "dot") {
        Ok(RenderPlan::WriteText(t)) => assert_eq!(t, model_to_dot(&model)),
        _ => panic!("expected dot text"),
    }
    match sarex::dot::build_and_render(text, "json") {
        Ok(RenderPlan::WriteText(t)) => assert_eq!(t, model_to_json(&model)),
        _ => panic!("expected json text"),
    }
    assert!(sarex::dot::build_and_render("nonsense", "json").is_err());
}
