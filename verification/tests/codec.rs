//! Tests of the JSON loader and the model codec.

use sarex::attrs::AttrMap;
use sarex::codec::{model_from_json, model_to_json, parse_cis};
use sarex::model::{build_model, Ci};

#[test]
fn load_worked_example() {
    let text = r#"[{"connector_type":"calls","source_component_values":{"name":"A"},"target_component_values":{"name":"B"},"additional_source_component_values":{"lang":"go"}}]"#;
    let cis = parse_cis(text).unwrap();
    assert_eq!(cis.len(), 1);
    assert_eq!(cis[0].connector_type, "calls");
    assert_eq!(
        cis[0].source_component_values.get("name"),
        Some("A".to_string())
    );
    assert_eq!(
        cis[0].target_component_values.get("name"),
        Some("B".to_string())
    );
    assert_eq!(
        cis[0].additional_source_component_values.get("lang"),
        Some("go".to_string())
    );

    let model = build_model(cis);
    assert_eq!(model.components.len(), 2);
    assert_eq!(model.connectors.len(), 1);
    assert_eq!(model.connectors[0].connector_type, "calls");
}

#[test]
fn load_empty_array() {
    assert_eq!(parse_cis("[]").unwrap().len(), 0);
    assert_eq!(parse_cis("  [ ]  ").unwrap().len(), 0);
}

#[test]
fn load_fields_in_any_order() {
    let text = r#"[{"target_component_values":{"name":"B"},"connector_type":"calls","source_component_values":{"name":"A"}}]"#;
    let cis = parse_cis(text).unwrap();
    assert_eq!(cis.len(), 1);
    assert_eq!(cis[0].connector_type, "calls");
    // The additional map is optional and defaults to empty.
    assert_eq!(cis[0].additional_source_component_values.len(), 0);
}

#[test]
fn load_rejects_bad_syntax() {
    assert!(parse_cis("").is_err());
    assert!(parse_cis("not json").is_err());
    assert!(parse_cis("[{]").is_err());
    assert!(parse_cis("[{}]").is_err());
    assert!(parse_cis(r#"[{"connector_type":"calls"}]"#).is_err()); // missing fields
    assert!(parse_cis(r#"[{"connector_type":7}]"#).is_err()); // wrong type
    assert!(
        parse_cis(r#"[{"connector_type":"a","source_component_values":{},"target_component_values":{},"unknown":{}}]"#)
            .is_err()
    );
    // trailing garbage
    assert!(parse_cis("[] x").is_err());
}

#[test]
fn load_rejects_repeated_field() {
    let text = r#"[{"connector_type":"a","connector_type":"b","source_component_values":{},"target_component_values":{}}]"#;
    assert!(parse_cis(text).is_err());
}

#[test]
fn load_preserves_order() {
    let text = r#"[
        {"connector_type":"first","source_component_values":{"n":"1"},"target_component_values":{"n":"2"}},
        {"connector_type":"second","source_component_values":{"n":"3"},"target_component_values":{"n":"4"}}
    ]"#;
    let cis = parse_cis(text).unwrap();
    assert_eq!(cis.len(), 2);
    assert_eq!(cis[0].connector_type, "first");
    assert_eq!(cis[1].connector_type, "second");
}

#[test]
fn strmap_repeated_key_keeps_last_value() {
    let text = r#"[{"connector_type":"t","source_component_values":{"k":"old","k":"new"},"target_component_values":{"x":"1"}}]"#;
    let cis = parse_cis(text).unwrap();
    assert_eq!(
        cis[0].source_component_values.get("k"),
        Some("new".to_string())
    );
    assert_eq!(cis[0].source_component_values.len(), 1);
}

#[test]
fn json_string_escapes() {
    let text = r#"[{"connector_type":"a\"b\\c\ndA","source_component_values":{"n":"1"},"target_component_values":{"n":"2"}}]"#;
    let cis = parse_cis(text).unwrap();
    assert_eq!(cis[0].connector_type, "a\"b\\c\ndA");
}

#[test]
fn json_rejects_lone_surrogate_escape() {
    let text = r#"[{"connector_type":"\ud800","source_component_values":{"n":"1"},"target_component_values":{"n":"2"}}]"#;
    assert!(parse_cis(text).is_err());
}

#[test]
fn model_json_shape() {
    let cis = parse_cis(
        r#"[{"connector_type":"calls","source_component_values":{"name":"A"},"target_component_values":{"name":"B"}}]"#,
    )
    .unwrap();
    let model = build_model(cis);
    let text = model_to_json(&model);
    let expected = "{\n  \"components\": [\n    {\n      \"id\": \"c0\",\n      \"component_values\": {\n        \"name\": \"A\"\n      }\n    },\n    {\n      \"id\": \"c1\",\n      \"component_values\": {\n        \"name\": \"B\"\n      }\n    }\n  ],\n  \"connectors\": [\n    {\n      \"connector_type\": \"calls\",\n      \"source_component_id\": \"c0\",\n      \"target_component_id\": \"c1\"\n    }\n  ]\n}";
    assert_eq!(text, expected);
}

#[test]
fn model_json_round_trip() {
    let cis = parse_cis(
        r#"[{"connector_type":"calls","source_component_values":{"name":"A"},"target_component_values":{"name":"B"},"additional_source_component_values":{"lang":"go"}},
            {"connector_type":"reads","source_component_values":{"name":"B"},"target_component_values":{"name":"C"}}]"#,
    )
    .unwrap();
    let model = build_model(cis);
    let text = model_to_json(&model);
    let decoded = model_from_json(text.as_str()).unwrap();
    assert_eq!(model_to_json(&decoded), text);
    assert_eq!(decoded.components.len(), model.components.len());
    assert_eq!(decoded.connectors.len(), model.connectors.len());
    for i in 0..model.components.len() {
        assert_eq!(decoded.components[i].id, model.components[i].id);
    }
}

#[test]
fn model_json_round_trip_with_awkward_strings() {
    let mut src = AttrMap::new();
    src.set("na\"me".to_string(), "va\\lue\n\u{1}".to_string());
    let mut tgt = AttrMap::new();
    tgt.set("k".to_string(), "\u{7}tab\there".to_string());
    let model = build_model(vec![Ci {
        connector_type: "weird \"type\"".to_string(),
        source_component_values: src,
        target_component_values: tgt,
        additional_source_component_values: AttrMap::new(),
    }]);
    let text = model_to_json(&model);
    let decoded = model_from_json(text.as_str()).unwrap();
    assert_eq!(model_to_json(&decoded), text);
    assert_eq!(
        decoded.components[0].component_values.get("na\"me"),
        Some("va\\lue\n\u{1}".to_string())
    );
    assert_eq!(decoded.connectors[0].connector_type, "weird \"type\"");
}

#[test]
fn model_json_round_trip_empty_model() {
    let model = build_model(Vec::new());
    let text = model_to_json(&model);
    assert_eq!(text, "{\n  \"components\": [],\n  \"connectors\": []\n}");
    let decoded = model_from_json(text.as_str()).unwrap();
    assert_eq!(decoded.components.len(), 0);
    assert_eq!(decoded.connectors.len(), 0);
}

#[test]
fn model_from_json_rejects_malformed() {
    assert!(model_from_json("").is_err());
    assert!(model_from_json("{}").is_err());
    assert!(model_from_json(r#"{"components": [], "connectors": []} extra"#).is_err());
    assert!(model_from_json(r#"{"connectors": [], "components": []}"#).is_err());
}

#[test]
fn model_from_json_is_whitespace_liberal() {
    let text = " {\n\t\"components\" : [ ] ,\r\n \"connectors\" : [ ] } \n";
    let decoded = model_from_json(text).unwrap();
    assert_eq!(decoded.components.len(), 0);
    assert_eq!(decoded.connectors.len(), 0);
}
