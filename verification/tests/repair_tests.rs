use rocinante::model::{ToolCall, ToolSchema};
use rocinante::repair::{balanced_objects, json_candidates, remove_trailing_commas, scrape_tool_calls, validate_call, validation_from, Validation};

fn registry() -> Vec<String> {
    ["bash", "edit", "glob", "grep", "read", "write"].iter().map(|s| s.to_string()).collect()
}

fn arg(c: &ToolCall, key: &str) -> serde_json::Value {
    let v: serde_json::Value = serde_json::from_str(&c.arguments).unwrap();
    v[key].clone()
}

#[test]
fn scrapes_fenced_json_block() {
    let text = "I'll read the file:\n```json\n{\"name\": \"read\", \"arguments\": {\"path\": \"src/main.rs\"}}\n```";
    let calls = scrape_tool_calls(&registry(), text);
    assert_eq!(calls.len(), 1);
    assert_eq!(calls[0].name, "read");
    assert_eq!(arg(&calls[0], "path"), "src/main.rs");
}

#[test]
fn scrapes_bare_object_with_tool_key() {
    let text = r#"Let me search. {"tool": "grep", "input": {"pattern": "fn main"}}"#;
    let calls = scrape_tool_calls(&registry(), text);
    assert_eq!(calls.len(), 1);
    assert_eq!(calls[0].name, "grep");
}

#[test]
fn tolerates_trailing_comma_and_smart_quotes() {
    let text = "```json\n{\u{201c}name\u{201d}: \u{201c}glob\u{201d}, \u{201c}arguments\u{201d}: {\u{201c}pattern\u{201d}: \u{201c}**/*.rs\u{201d},}}\n```";
    let calls = scrape_tool_calls(&registry(), text);
    assert_eq!(calls.len(), 1);
    assert_eq!(calls[0].name, "glob");
}

#[test]
fn ignores_json_that_is_not_a_tool_call() {
    let text = r#"Config looks like {"defaults": {"model": "main"}} which is fine."#;
    assert!(scrape_tool_calls(&registry(), text).is_empty());
}

#[test]
fn ignores_unknown_tools() {
    let text = r#"{"name": "launch_missiles", "arguments": {}}"#;
    assert!(scrape_tool_calls(&registry(), text).is_empty());
}

#[test]
fn openai_function_shape() {
    let text = r#"{"function": {"name": "read", "arguments": "{\"path\": \"x.rs\"}"}}"#;
    let calls = scrape_tool_calls(&registry(), text);
    assert_eq!(calls.len(), 1);
    assert_eq!(arg(&calls[0], "path"), "x.rs");
}

#[test]
fn tool_calls_envelope_shape() {
    let text = r#"{"tool_calls": [{"name": "read", "arguments": {"path": "a"}}, {"name": "glob", "arguments": {"pattern": "*"}}]}"#;
    let calls = scrape_tool_calls(&registry(), text);
    assert_eq!(calls.len(), 2);
}

fn schemas() -> Vec<ToolSchema> {
    vec![ToolSchema {
        name: "read".into(),
        description: "Read a file".into(),
        parameters: r#"{"type":"object","properties":{"path":{"type":"string"},"offset":{"type":"integer"}},"required":["path"]}"#.into(),
    }]
}

#[test]
fn validation_rejects_missing_required_field() {
    let call = ToolCall { id: "1".into(), name: "read".into(), arguments: r#"{"offset":3}"#.into() };
    assert!(matches!(validate_call(&schemas(), &call), Validation::Invalid(_)));
}

#[test]
fn validation_accepts_good_call() {
    let call = ToolCall { id: "1".into(), name: "read".into(), arguments: r#"{"path":"src/lib.rs"}"#.into() };
    assert!(matches!(validate_call(&schemas(), &call), Validation::Valid));
}

#[test]
fn unknown_tool_lists_the_available_ones() {
    let call = ToolCall { id: "1".into(), name: "fly".into(), arguments: "{}".into() };
    match validate_call(&schemas(), &call) {
        Validation::UnknownTool(m) => assert_eq!(m, "unknown tool `fly`. Available tools: read"),
        other => panic!("{other:?}"),
    }
}

#[test]
fn case_drifted_names_resolve_and_duplicates_drop() {
    let text = "```json\n{\"name\": \"READ\", \"arguments\": {\"path\": \"a\"}}\n```";
    let calls = scrape_tool_calls(&registry(), text);
    assert_eq!(calls.len(), 1, "fenced and bare copies are one call");
    assert_eq!(calls[0].name, "read");
    assert_eq!(calls[0].id, "repaired_read");
}

#[test]
fn candidates_and_comma_cleanup() {
    let c: Vec<char> = "a {\"k\": \"}\"} b {x".chars().collect();
    let objs: Vec<String> = balanced_objects(&c).iter().map(|v| v.iter().collect()).collect();
    assert_eq!(objs, vec!["{\"k\": \"}\"}".to_string()]);
    let c: Vec<char> = "```\n{}\n```".chars().collect();
    assert_eq!(json_candidates(&c).len(), 2);
    let c: Vec<char> = "[1, 2, ]".chars().collect();
    let out: String = remove_trailing_commas(&c).iter().collect();
    assert_eq!(out, "[1, 2 ]");
}

#[test]
fn at_most_three_schema_errors_are_quoted() {
    let tools = vec![ToolSchema { name: "t".into(), description: "".into(), parameters: r#"{"type":"object"}"#.into() }];
    let call = ToolCall { id: "c".into(), name: "t".into(), arguments: "{}".into() };
    let errs: Vec<String> = ["e1", "e2", "e3", "e4"].iter().map(|s| s.to_string()).collect();
    match validation_from(&tools, &call, &Some(errs)) {
        Validation::Invalid(m) => assert_eq!(m, r#"invalid arguments for `t`: e1; e2; e3. Required schema: {"type":"object"}"#),
        other => panic!("unexpected {other:?}"),
    }
    assert!(matches!(validation_from(&tools, &call, &Some(vec![])), Validation::Valid));
    assert!(matches!(validation_from(&tools, &call, &None), Validation::Valid));
}
