//! Tests of the analyzer-output decoding and relation filtering.

use sarex::plugin::{
    filter_drs, is_start_with, parse_go_reader_output, parse_jdeps_output, plugin_kind_for_lang,
    split_csv, split_lines, Dr, PluginKind,
};

#[test]
fn jdeps_output_basic() {
    let text = "com.app.Main -> com.lib.Util (lib.jar)\nnot a relation line\n  com.app.A -> com.app.B\n";
    let drs = parse_jdeps_output("p1", text);
    assert_eq!(drs.len(), 2);
    assert_eq!(drs[0].source, "com.app.Main");
    assert_eq!(drs[0].target, "com.lib.Util");
    assert_eq!(drs[0].project_id, "p1");
    assert_eq!(drs[1].source, "com.app.A");
    assert_eq!(drs[1].target, "com.app.B");
}

#[test]
fn jdeps_line_with_two_arrows_is_skipped() {
    let text = "a -> b -> c\n";
    assert_eq!(parse_jdeps_output("p", text).len(), 0);
}

#[test]
fn jdeps_source_spaces_removed() {
    let text = "  spaced source   -> target rest\n";
    let drs = parse_jdeps_output("p", text);
    assert_eq!(drs.len(), 1);
    assert_eq!(drs[0].source, "spacedsource");
    assert_eq!(drs[0].target, "target");
}

#[test]
fn jdeps_empty_output() {
    assert_eq!(parse_jdeps_output("p", "").len(), 0);
}

#[test]
fn go_reader_output_basic() {
    let text = "{\"caller\":\"pkg/a\",\"callee\":\"pkg/b\"}\ngarbage line\n{\"callee\":\"x\",\"caller\":\"y\"}\n";
    let drs = parse_go_reader_output("p2", text);
    assert_eq!(drs.len(), 2);
    assert_eq!(drs[0].source, "pkg/a");
    assert_eq!(drs[0].target, "pkg/b");
    assert_eq!(drs[0].project_id, "p2");
    assert_eq!(drs[1].source, "y");
    assert_eq!(drs[1].target, "x");
}

#[test]
fn go_reader_rejects_extra_fields_and_trailing_text() {
    let text = "{\"caller\":\"a\",\"callee\":\"b\",\"extra\":\"c\"}\n{\"caller\":\"a\",\"callee\":\"b\"} trailing\n{\"caller\":\"a\"}\n";
    assert_eq!(parse_go_reader_output("p", text).len(), 0);
}

#[test]
fn lines_and_csv() {
    assert_eq!(split_lines("a\nb\r\nc"), vec!["a", "b", "c"]);
    assert_eq!(split_lines("a\n"), vec!["a"]);
    assert_eq!(split_lines(""), Vec::<String>::new());
    assert_eq!(split_csv("a,b,c"), vec!["a", "b", "c"]);
    assert_eq!(split_csv("a,,b"), vec!["a", "", "b"]);
    assert_eq!(split_csv(""), vec![""]);
}

#[test]
fn start_with_and_filter() {
    let sources = vec!["com.app", "org.tool"];
    assert!(is_start_with(&"com.app.Main".to_string(), &sources));
    assert!(!is_start_with(&"com.lib.Util".to_string(), &sources));

    let dr = |s: &str, t: &str| Dr {
        source: s.to_string(),
        target: t.to_string(),
        project_id: "p".to_string(),
    };
    let drs = vec![
        dr("com.app.Main", "com.lib.Util"),   // kept: source in, target out
        dr("com.app.Main", "com.app.Other"),  // dropped: target also in
        dr("com.lib.Util", "com.other.X"),    // dropped: source not in
        dr("org.tool.T", "java.util.List"),   // kept
    ];
    let filtered = filter_drs(&drs, &sources);
    assert_eq!(filtered.len(), 2);
    assert_eq!(filtered[0].source, "com.app.Main");
    assert_eq!(filtered[0].target, "com.lib.Util");
    assert_eq!(filtered[1].source, "org.tool.T");
}

#[test]
fn plugin_kinds() {
    assert_eq!(plugin_kind_for_lang("java"), Some(PluginKind::Java));
    assert_eq!(plugin_kind_for_lang("go"), Some(PluginKind::Go));
    assert_eq!(plugin_kind_for_lang("js"), Some(PluginKind::JavaScript));
    assert_eq!(plugin_kind_for_lang("rust"), None);
}

#[test]
fn jdeps_output_with_crlf_lines() {
    let text = "a.X -> b.Y\r\nc.Z -> d.W\r\n";
    let drs = parse_jdeps_output("p", text);
    assert_eq!(drs.len(), 2);
    assert_eq!(drs[1].source, "c.Z");
    assert_eq!(drs[1].target, "d.W");
}
