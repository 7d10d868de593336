use rocinante::lsp_tool::{
    definition_report, diagnostics_report, hover_report, location_text, plan_action, references_report,
    symbols_report, DocSymbol, LspArgs, LspStep, LspTool, PositionAction, ServerCaps,
};
use rocinante::positions::Encoding;

fn args(action: &str, line: Option<u32>, column: Option<u32>) -> LspArgs {
    LspArgs { action: action.to_string(), path: "src/a.rs".to_string(), line, column, query: None }
}

fn caps(all: bool) -> ServerCaps {
    ServerCaps { definition: all, references: all, hover: all, symbols: all }
}

fn done_text(s: LspStep) -> (bool, String) {
    match s {
        LspStep::Done(o) => (o.is_error, o.content),
        _ => panic!("expected a finished step"),
    }
}

#[test]
fn lsp_tool_describes_its_calls() {
    let t = LspTool;
    assert_eq!(t.name(), "lsp");
    assert_eq!(t.describe_call(r#"{"action":"hover","path":"a.rs"}"#), "lsp: hover a.rs");
    assert_eq!(t.describe_call("{}"), "lsp: ? ?");
    let schema: serde_json::Value = serde_json::from_str(t.schema()).unwrap();
    assert_eq!(schema["required"][0], serde_json::Value::from("action"));
}

#[test]
fn plan_action_validates_positions_and_support() {
    let content = "fn main() {\n    let é = 1;\n}\n";
    assert!(matches!(plan_action(&args("diagnostics", None, None), &caps(false), "rust-analyzer", content, Encoding::Utf16), LspStep::Diagnostics));
    assert!(matches!(plan_action(&args("symbols", None, None), &caps(true), "ra", content, Encoding::Utf16), LspStep::Symbols));
    assert_eq!(
        done_text(plan_action(&args("symbols", None, None), &caps(false), "ra", content, Encoding::Utf16)),
        (false, "the ra server does not support symbols".to_string())
    );
    assert_eq!(
        done_text(plan_action(&args("hover", Some(0), Some(3)), &caps(true), "ra", content, Encoding::Utf16)),
        (true, "action=hover requires `line` and `column` (1-based integers)".to_string())
    );
    assert_eq!(
        done_text(plan_action(&args("references", Some(1), None), &caps(true), "ra", content, Encoding::Utf16)),
        (true, "action=references requires `line` and `column` (1-based integers)".to_string())
    );
    assert_eq!(
        done_text(plan_action(&args("definition", Some(1), Some(1)), &caps(false), "ra", content, Encoding::Utf16)),
        (false, "the ra server does not support definition".to_string())
    );
    assert_eq!(
        done_text(plan_action(&args("rename", None, None), &caps(true), "ra", content, Encoding::Utf16)),
        (true, "unknown action `rename`; expected diagnostics, definition, references, hover, or symbols".to_string())
    );
    // Line 2, byte column 12 is after `let é ` (é is two bytes, one UTF-16 unit).
    match plan_action(&args("definition", Some(2), Some(12)), &caps(true), "ra", content, Encoding::Utf16) {
        LspStep::AtPosition { action, position } => {
            assert_eq!(action, PositionAction::Definition);
            assert_eq!(position.line, 1);
            assert_eq!(position.character, 10);
        }
        _ => panic!("expected a position request"),
    }
}

#[test]
fn locations_render_as_path_line_column() {
    assert_eq!(
        location_text("file:///src/a%20b.rs", 1, 10, Some("    let é = 1;"), Encoding::Utf16),
        "/src/a b.rs:2:12"
    );
    assert_eq!(location_text("file:///src/a.rs", 0, 4, None, Encoding::Utf8), "/src/a.rs:1:5");
    assert_eq!(location_text("jdt://contents/X.class", 3, 0, None, Encoding::Utf16), "jdt://contents/X.class:4:1");
}

#[test]
fn definition_and_reference_lists_are_capped() {
    let o = definition_report(0, &vec![]);
    assert!(!o.is_error);
    assert_eq!(o.content, "no definition found at this position");
    let shown: Vec<String> = (0..10).map(|i| format!("/a.rs:{}:1", i + 1)).collect();
    let o = definition_report(12, &shown);
    assert!(o.content.starts_with("/a.rs:1:1\n/a.rs:2:1"));
    assert!(o.content.ends_with("/a.rs:10:1\n… and 2 more"));

    assert_eq!(references_report(0, &vec![]).content, "no references found");
    let o = references_report(2, &vec!["/a.rs:1:1".to_string(), "/b.rs:3:4".to_string()]);
    assert_eq!(o.content, "2 reference(s):\n/a.rs:1:1\n/b.rs:3:4");
}

#[test]
fn hover_joins_parts_and_reports_nothing() {
    assert_eq!(hover_report(&vec![]).content, "no hover information at this position");
    assert_eq!(hover_report(&vec!["  ".to_string()]).content, "no hover information at this position");
    let o = hover_report(&vec!["fn main()".to_string(), "Entry point.".to_string()]);
    assert_eq!(o.content, "fn main()\n\nEntry point.");
    assert!(!o.is_error);
}

fn sym(name: &str, kind: &str, line: u32, children: Vec<DocSymbol>) -> DocSymbol {
    DocSymbol { name: name.to_string(), kind: kind.to_string(), line, children }
}

#[test]
fn symbols_nest_and_filter_case_insensitively() {
    let tree = vec![
        sym("Parser", "Struct", 3, vec![sym("new", "Method", 5, vec![]), sym("Parse_All", "Method", 9, vec![])]),
        sym("main", "Function", 20, vec![]),
    ];
    let o = symbols_report(&tree, None);
    assert_eq!(o.content, "4: Struct Parser\n  6: Method new\n  10: Method Parse_All\n21: Function main");
    let o = symbols_report(&tree, Some("PARSE"));
    assert_eq!(o.content, "4: Struct Parser\n  10: Method Parse_All");
    assert_eq!(symbols_report(&tree, Some("zzz")).content, "no symbols matching `zzz`");
    assert_eq!(symbols_report(&vec![], None).content, "no symbols in this file");
}

#[test]
fn diagnostics_report_falls_back_to_latest() {
    assert_eq!(diagnostics_report(Some("no diagnostics".to_string()), None).content, "no diagnostics");
    assert_eq!(
        diagnostics_report(None, Some("a.rs:1:1 error x".to_string())).content,
        "server is still analyzing; latest known state:\na.rs:1:1 error x"
    );
    assert_eq!(
        diagnostics_report(None, None).content,
        "diagnostics pending — the server is still analyzing; re-run action=diagnostics shortly"
    );
}
