use rocinante::config::McpServerConfig;
use rocinante::mcp::{
    call_arguments, call_report, flatten_content, is_included, resolve_env, transport_for, CallOutcome,
    ContentBlock, McpTool, McpTransport,
};

fn server(command: Option<&str>, url: Option<&str>) -> McpServerConfig {
    McpServerConfig {
        command: command.map(|s| s.to_string()),
        args: vec![],
        env: vec![("A".to_string(), "1".to_string())],
        env_from: vec![("TOKEN".to_string(), "HOST_TOKEN".to_string()), ("A".to_string(), "HOST_A".to_string())],
        url: url.map(|s| s.to_string()),
        only_tools: None,
    }
}

#[test]
fn exactly_one_transport() {
    assert_eq!(transport_for(&server(Some("npx"), None)), Ok(McpTransport::Stdio("npx".to_string())));
    assert_eq!(transport_for(&server(None, Some("http://x/mcp"))), Ok(McpTransport::Http("http://x/mcp".to_string())));
    assert_eq!(transport_for(&server(None, None)), Err("exactly one of command/url required".to_string()));
    assert_eq!(transport_for(&server(Some("a"), Some("b"))), Err("exactly one of command/url required".to_string()));
}

#[test]
fn env_from_reads_host_and_fails_when_unset() {
    let s = server(Some("npx"), None);
    let env = resolve_env(&s, &vec![Some("secret".to_string()), Some("2".to_string())]).unwrap();
    assert_eq!(env, vec![("A".to_string(), "2".to_string()), ("TOKEN".to_string(), "secret".to_string())]);
    assert_eq!(
        resolve_env(&s, &vec![None, Some("2".to_string())]),
        Err("env_from: host variable `HOST_TOKEN` is not set".to_string())
    );
}

#[test]
fn only_tools_filters_exposed_tools() {
    let mut s = server(Some("npx"), None);
    assert!(is_included(&s, "anything"));
    s.only_tools = Some(vec!["search".to_string()]);
    assert!(is_included(&s, "search"));
    assert!(!is_included(&s, "delete"));
}

#[test]
fn tools_are_prefixed_and_described() {
    let t = McpTool::new("github", "search", None, r#"{"type":"object"}"#);
    assert_eq!(t.name, "mcp__github__search");
    assert_eq!(t.description, "(no description provided by server)");
    assert_eq!(t.remote_name, "search");
    assert_eq!(t.describe_call(r#"{ "q" : "rust" }"#), r#"mcp__github__search: {"q":"rust"}"#);
    let long = format!(r#"{{"q":"{}"}}"#, "x".repeat(100));
    assert_eq!(t.describe_call(&long).chars().count(), "mcp__github__search: ".chars().count() + 80);
}

#[test]
fn arguments_must_be_an_object_or_null() {
    assert_eq!(call_arguments(r#"{"q":1}"#), Ok(Some(r#"{"q":1}"#.to_string())));
    assert_eq!(call_arguments("null"), Ok(None));
    assert_eq!(call_arguments("[1, 2]"), Err("arguments must be a JSON object, got: [1,2]".to_string()));
}

#[test]
fn results_flatten_and_report() {
    let blocks = vec![
        ContentBlock::Text("hello".to_string()),
        ContentBlock::Other(Some(r#"{"type":"image"}"#.to_string())),
        ContentBlock::Other(None),
    ];
    assert_eq!(flatten_content(&blocks), "hello\n[non-text content: {\"type\":\"image\"}]\n[non-text content]");
    let o = call_report(&CallOutcome::Answered { content: vec![], is_error: None });
    assert!(!o.is_error);
    assert_eq!(o.content, "(empty result)");
    let o = call_report(&CallOutcome::Answered { content: vec![], is_error: Some(true) });
    assert!(o.is_error);
    assert_eq!(o.content, "mcp tool reported an error");
    let o = call_report(&CallOutcome::Answered { content: vec![ContentBlock::Text("boom".to_string())], is_error: Some(true) });
    assert_eq!((o.is_error, o.content.as_str()), (true, "boom"));
    assert_eq!(call_report(&CallOutcome::TimedOut).content, "mcp tool timed out after 60s");
    assert_eq!(call_report(&CallOutcome::Failed("closed".to_string())).content, "mcp call failed: closed");
}
