//! Tests of the configuration codec and the project-command helpers.

use sarex::config::{config_from_json, config_to_json, Config};
use sarex::db::{format_db_listing, project_action, DBError, ProjectAction, ProjectEntry};

#[test]
fn config_round_trip_with_project() {
    let c = Config {
        db_url: "mongodb://localhost".to_string(),
        project_id: Some("abc123".to_string()),
    };
    let text = config_to_json(&c);
    assert_eq!(
        text,
        r#"{"db_url":"mongodb://localhost","project_id":"abc123"}"#
    );
    let back = config_from_json(text.as_str()).unwrap();
    assert_eq!(back.db_url, "mongodb://localhost");
    assert_eq!(back.project_id, Some("abc123".to_string()));
}

#[test]
fn config_round_trip_without_project() {
    let c = Config::new();
    let text = config_to_json(&c);
    assert_eq!(text, r#"{"db_url":"","project_id":null}"#);
    let back = config_from_json(text.as_str()).unwrap();
    assert_eq!(back.db_url, "");
    assert_eq!(back.project_id, None);
}

#[test]
fn config_rejects_malformed() {
    assert!(config_from_json("").is_err());
    assert!(config_from_json("{}").is_err());
    assert!(config_from_json(r#"{"db_url":"x"}"#).is_err());
    assert!(config_from_json(r#"{"db_url":"x","project_id":7}"#).is_err());
    assert!(config_from_json(r#"{"db_url":"x","project_id":null} y"#).is_err());
}

#[test]
fn project_actions() {
    match project_action(Some("id1".to_string()), Some("nm".to_string())) {
        Ok(ProjectAction::UpdateName(id, nm)) => {
            assert_eq!(id, "id1");
            assert_eq!(nm, "nm");
        }
        _ => panic!("expected a rename"),
    }
    match project_action(Some("id1".to_string()), None) {
        Ok(ProjectAction::CheckExists(id)) => assert_eq!(id, "id1"),
        _ => panic!("expected an existence check"),
    }
    match project_action(None, Some("nm".to_string())) {
        Ok(ProjectAction::Create(nm)) => assert_eq!(nm, "nm"),
        _ => panic!("expected a creation"),
    }
    match project_action(None, None) {
        Err(DBError::NotEnoughArguments) => {}
        _ => panic!("expected an error"),
    }
}

#[test]
fn db_error_messages() {
    assert_eq!(DBError::NotEnoughArguments.message(), "Not enough arguments");
    assert_eq!(DBError::NoSuchProject.message(), "No such project");
}

#[test]
fn listing_with_database() {
    let projects = vec![
        ProjectEntry {
            id: "id1".to_string(),
            name: "alpha".to_string(),
            created_at: "2024-01-01 10:00:00".to_string(),
        },
        ProjectEntry {
            id: "id2".to_string(),
            name: "beta".to_string(),
            created_at: "2024-02-02 11:30:00".to_string(),
        },
    ];
    let text = format_db_listing("mongodb://localhost", "id2", &projects);
    let expected = "db_url: mongodb://localhost\nproject_id: id2\nprojects:\n    - id1: alpha, 2024-01-01 10:00:00\n    V id2: beta, 2024-02-02 11:30:00\n";
    assert_eq!(text, expected);
}

#[test]
fn listing_without_database() {
    let text = format_db_listing("", "", &Vec::new());
    assert_eq!(text, "db_url: <NOT SET>\nproject_id: \n");
}
