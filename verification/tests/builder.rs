//! Tests of the model builder: identity resolution, merging, and the worked
//! examples.

use sarex::attrs::AttrMap;
use sarex::model::{build_model, find_or_create_component_if_not_exist, Ci, Model};

fn map_of(pairs: &[(&str, &str)]) -> AttrMap {
    let mut m = AttrMap::new();
    for (k, v) in pairs {
        m.set(k.to_string(), v.to_string());
    }
    m
}

fn ci(
    connector_type: &str,
    source: &[(&str, &str)],
    target: &[(&str, &str)],
    additional: &[(&str, &str)],
) -> Ci {
    Ci {
        connector_type: connector_type.to_string(),
        source_component_values: map_of(source),
        target_component_values: map_of(target),
        additional_source_component_values: map_of(additional),
    }
}

#[test]
fn worked_example() {
    // One record: A calls B, with an extra language attribute for the source.
    let model = build_model(vec![ci(
        "calls",
        &[("name", "A")],
        &[("name", "B")],
        &[("lang", "go")],
    )]);
    assert_eq!(model.components.len(), 2);
    assert_eq!(model.connectors.len(), 1);

    let a = &model.components[0];
    assert_eq!(a.component_values.get("name"), Some("A".to_string()));
    assert_eq!(a.component_values.get("lang"), Some("go".to_string()));
    assert_eq!(a.component_values.len(), 2);

    let b = &model.components[1];
    assert_eq!(b.component_values.get("name"), Some("B".to_string()));
    assert_eq!(b.component_values.len(), 1);

    let conn = &model.connectors[0];
    assert_eq!(conn.connector_type, "calls");
    assert_eq!(conn.source_component_id, a.id);
    assert_eq!(conn.target_component_id, b.id);
    assert_ne!(a.id, b.id);
}

#[test]
fn reuse_example() {
    // Two records with the same source and distinct targets: the source
    // component is reused, so three components and two connectors remain.
    let model = build_model(vec![
        ci("calls", &[("name", "A")], &[("name", "B")], &[]),
        ci("calls", &[("name", "A")], &[("name", "C")], &[]),
    ]);
    assert_eq!(model.components.len(), 3);
    assert_eq!(model.connectors.len(), 2);
    assert_eq!(
        model.connectors[0].source_component_id,
        model.connectors[1].source_component_id
    );
    assert_ne!(
        model.connectors[0].target_component_id,
        model.connectors[1].target_component_id
    );
}

#[test]
fn no_accidental_merging() {
    // Pairwise disjoint non-empty keys: nothing merges, 2N components.
    let model = build_model(vec![
        ci("calls", &[("a", "1")], &[("b", "2")], &[]),
        ci("calls", &[("c", "3")], &[("d", "4")], &[]),
    ]);
    assert_eq!(model.components.len(), 4);
    assert_eq!(model.connectors.len(), 2);
}

#[test]
fn ids_unique_within_model() {
    let model = build_model(vec![
        ci("x", &[("a", "1")], &[("b", "2")], &[]),
        ci("y", &[("c", "3")], &[("d", "4")], &[]),
    ]);
    for i in 0..model.components.len() {
        for j in 0..model.components.len() {
            if i != j {
                assert_ne!(model.components[i].id, model.components[j].id);
            }
        }
    }
}

#[test]
fn partial_match_is_asymmetric() {
    // Candidate {name: A} matches an existing component {name: A, x: y}, but
    // candidate {name: A, x: y} does not match an existing component
    // {name: A}: the test runs in the candidate -> existing direction only.
    let superset = ci("t", &[("name", "A"), ("x", "y")], &[("unused", "u")], &[]);
    let subset = ci("t", &[("name", "A")], &[("unused", "u")], &[]);

    // Superset stored first: the subset candidate reuses it.
    let mut m1 = Model::new();
    let id_super = find_or_create_component_if_not_exist(&mut m1, &superset, true);
    let id_sub = find_or_create_component_if_not_exist(&mut m1, &subset, true);
    assert_eq!(id_super, id_sub);
    assert_eq!(m1.components.len(), 1);

    // Subset stored first: the superset candidate constrains on `x`, which
    // the stored component lacks, so a second component is created.
    let mut m2 = Model::new();
    let id_sub2 = find_or_create_component_if_not_exist(&mut m2, &subset, true);
    let id_super2 = find_or_create_component_if_not_exist(&mut m2, &superset, true);
    assert_ne!(id_sub2, id_super2);
    assert_eq!(m2.components.len(), 2);
}

#[test]
fn empty_valued_keys_carry_no_weight() {
    // A candidate entry with an empty value imposes no constraint.
    let stored = ci("t", &[("x", "y")], &[("unused", "u")], &[]);
    let probe = ci("t", &[("x", "y"), ("name", "")], &[("unused", "u")], &[]);
    let mut m = Model::new();
    let id1 = find_or_create_component_if_not_exist(&mut m, &stored, true);
    let id2 = find_or_create_component_if_not_exist(&mut m, &probe, true);
    assert_eq!(id1, id2);
    assert_eq!(m.components.len(), 1);
}

#[test]
fn empty_candidate_matches_first_component() {
    // A candidate with no non-empty entry matches every component, and the
    // first one wins.
    let model = build_model(vec![
        ci("t", &[("a", "1")], &[("b", "2")], &[]),
        ci("t", &[], &[("c", "3")], &[]),
    ]);
    // The empty source candidate of the second record matches the first
    // component in insertion order.
    assert_eq!(model.components.len(), 3);
    assert_eq!(
        model.connectors[1].source_component_id,
        model.components[0].id
    );
}

#[test]
fn additional_values_win_on_collision() {
    // The additional source values are merged into a newly created source
    // component and win over the candidate's own entry for the same key.
    let model = build_model(vec![ci(
        "t",
        &[("name", "A"), ("lang", "java")],
        &[("name", "B")],
        &[("lang", "go")],
    )]);
    let a = &model.components[0];
    assert_eq!(a.component_values.get("lang"), Some("go".to_string()));
    assert_eq!(a.component_values.len(), 2);
}

#[test]
fn additional_values_not_applied_to_target_or_match() {
    // The additional values never touch the target side, and never touch an
    // already-matched component.
    let model = build_model(vec![
        ci("t", &[("name", "A")], &[("name", "B")], &[("lang", "go")]),
        ci("t", &[("name", "A")], &[("name", "B")], &[("lang", "rust")]),
    ]);
    assert_eq!(model.components.len(), 2);
    let a = &model.components[0];
    let b = &model.components[1];
    // The second record's additional values were not merged into the
    // already-existing source component.
    assert_eq!(a.component_values.get("lang"), Some("go".to_string()));
    // The target component never received additional values.
    assert_eq!(b.component_values.get("lang"), None);
}

#[test]
fn self_loop_permitted() {
    let model = build_model(vec![ci(
        "recurses",
        &[("name", "A")],
        &[("name", "A")],
        &[],
    )]);
    assert_eq!(model.components.len(), 1);
    assert_eq!(model.connectors.len(), 1);
    assert_eq!(
        model.connectors[0].source_component_id,
        model.connectors[0].target_component_id
    );
}

#[test]
fn connectors_keep_multiplicity() {
    // Repeated observations produce repeated edges.
    let record = || ci("calls", &[("name", "A")], &[("name", "B")], &[]);
    let model = build_model(vec![record(), record(), record()]);
    assert_eq!(model.components.len(), 2);
    assert_eq!(model.connectors.len(), 3);
    assert_eq!(
        model.connectors[0].source_component_id,
        model.connectors[2].source_component_id
    );
}

#[test]
fn deterministic_across_invocations() {
    let input = || {
        vec![
            ci("calls", &[("name", "A")], &[("name", "B")], &[("lang", "go")]),
            ci("reads", &[("name", "B")], &[("name", "C")], &[]),
            ci("calls", &[("name", "A")], &[("name", "C")], &[]),
        ]
    };
    let m1 = build_model(input());
    let m2 = build_model(input());
    assert_eq!(
        sarex::codec::model_to_json(&m1),
        sarex::codec::model_to_json(&m2)
    );
}

#[test]
fn build_of_empty_input() {
    let model = build_model(Vec::new());
    assert_eq!(model.components.len(), 0);
    assert_eq!(model.connectors.len(), 0);
}

#[test]
fn ids_are_sequential_decimal() {
    // Six records with pairwise disjoint keys: twelve components, whose ids
    // carry their creation index in decimal.
    let mut records = Vec::new();
    for i in 0..6 {
        records.push(ci(
            "t",
            &[(format!("s{}", i).as_str(), "1")],
            &[(format!("t{}", i).as_str(), "1")],
            &[],
        ));
    }
    let model = build_model(records);
    assert_eq!(model.components.len(), 12);
    for (i, comp) in model.components.iter().enumerate() {
        assert_eq!(comp.id, format!("c{}", i));
    }
}
