//! Tests of the ordered attribute map.

use sarex::attrs::AttrMap;

#[test]
fn set_and_get() {
    let mut m = AttrMap::new();
    assert_eq!(m.len(), 0);
    assert_eq!(m.get("k"), None);
    m.set("k".to_string(), "v".to_string());
    assert_eq!(m.len(), 1);
    assert_eq!(m.get("k"), Some("v".to_string()));
}

#[test]
fn set_overwrites_in_place() {
    let mut m = AttrMap::new();
    m.set("a".to_string(), "1".to_string());
    m.set("b".to_string(), "2".to_string());
    m.set("a".to_string(), "3".to_string());
    assert_eq!(m.len(), 2);
    assert_eq!(m.get("a"), Some("3".to_string()));
    // The overwritten key keeps its original position.
    assert_eq!(m.key_at(0).as_str(), "a");
    assert_eq!(m.key_at(1).as_str(), "b");
    assert_eq!(m.value_at(0).as_str(), "3");
}

#[test]
fn merge_from_wins_on_collision() {
    let mut base = AttrMap::new();
    base.set("name".to_string(), "A".to_string());
    base.set("lang".to_string(), "java".to_string());
    let mut extra = AttrMap::new();
    extra.set("lang".to_string(), "go".to_string());
    extra.set("os".to_string(), "linux".to_string());
    base.merge_from(&extra);
    assert_eq!(base.len(), 3);
    assert_eq!(base.get("lang"), Some("go".to_string()));
    assert_eq!(base.get("os"), Some("linux".to_string()));
    assert_eq!(base.key_at(1).as_str(), "lang");
}

#[test]
fn matches_is_partial() {
    let mut comp = AttrMap::new();
    comp.set("name".to_string(), "A".to_string());
    comp.set("lang".to_string(), "go".to_string());

    let mut cand = AttrMap::new();
    cand.set("name".to_string(), "A".to_string());
    assert!(cand.matches(&comp));

    cand.set("lang".to_string(), "java".to_string());
    assert!(!cand.matches(&comp));

    // An empty value imposes no constraint.
    cand.set("lang".to_string(), String::new());
    assert!(cand.matches(&comp));

    // A key absent from the component blocks the match when non-empty.
    cand.set("missing".to_string(), "x".to_string());
    assert!(!cand.matches(&comp));

    // The empty candidate matches everything.
    let empty = AttrMap::new();
    assert!(empty.matches(&comp));
}

#[test]
fn clone_map_copies() {
    let mut m = AttrMap::new();
    m.set("k".to_string(), "v".to_string());
    let c = m.clone_map();
    assert_eq!(c.len(), 1);
    assert_eq!(c.get("k"), Some("v".to_string()));
}
