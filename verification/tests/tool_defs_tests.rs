use rocinante::permissions::ToolKind;
use rocinante::tool_defs::{check_glob, BashEnd, BashTool, EditTool, GlobTool, GrepTool, ReadTool, WriteTool};

#[test]
fn tool_names_kinds_and_summaries() {
    assert_eq!((BashTool.name(), BashTool.kind()), ("bash", ToolKind::Execute));
    assert_eq!((ReadTool.name(), ReadTool.kind()), ("read", ToolKind::ReadOnly));
    assert_eq!((WriteTool.name(), WriteTool.kind()), ("write", ToolKind::Edit));
    assert_eq!((EditTool.name(), EditTool.kind()), ("edit", ToolKind::Edit));
    assert_eq!((GlobTool.name(), GlobTool.kind()), ("glob", ToolKind::ReadOnly));
    assert_eq!((GrepTool.name(), GrepTool.kind()), ("grep", ToolKind::ReadOnly));
    assert_eq!(BashTool.describe_call(r#"{"command":"cargo test"}"#), "bash: cargo test");
    assert_eq!(BashTool.describe_call(r#"{"cmd":"x"}"#), "bash: ?");
    assert_eq!(ReadTool.describe_call(r#"{"path":"src/a b.rs"}"#), "read: src/a b.rs");
    assert_eq!(GrepTool.describe_call(r#"{"pattern":5}"#), "grep: ?");
    assert_eq!(WriteTool.describe_call(r#"{"path":"x.txt","content":"héllo"}"#), "write: x.txt (6 bytes)");
    assert_eq!(WriteTool.describe_call("{}"), "write: ? (0 bytes)");
    assert_eq!(WriteTool.done_message("/w/x", "ab"), "wrote 2 bytes to /w/x");
    for schema in [BashTool.schema(), ReadTool.schema(), WriteTool.schema(), EditTool.schema(), GlobTool.schema(), GrepTool.schema()] {
        let v: serde_json::Value = serde_json::from_str(schema).unwrap();
        assert_eq!(v["type"], "object");
    }
}

#[test]
fn bash_timeout_and_reports() {
    assert_eq!(BashTool.timeout_secs(None), 120);
    assert_eq!(BashTool.timeout_secs(Some(5)), 5);
    assert_eq!(BashTool.timeout_secs(Some(6000)), 600);
    assert_eq!(BashTool.call_tag("echo hi"), "bash:echo hi");
    assert_eq!(BashTool.call_tag("abcdefghijklmnopqrstuvwxyz"), "bash:abcdefghijklmnopqrstuvwx");
    let ok = BashTool.report("hi\n", &BashEnd::Exited { success: true, code: Some(0) }, 120);
    assert!(!ok.is_error);
    assert!(ok.content.contains("hi"));
    let empty = BashTool.report("", &BashEnd::Exited { success: true, code: Some(0) }, 120);
    assert_eq!(empty.content, "(no output, exit 0)");
    let failed = BashTool.report("oops\n", &BashEnd::Exited { success: false, code: Some(3) }, 120);
    assert!(failed.is_error);
    assert!(failed.content.contains("exit code 3"), "{}", failed.content);
    let killed = BashTool.report("", &BashEnd::Exited { success: false, code: None }, 120);
    assert!(killed.content.starts_with("exit code -1\n"));
    let t = BashTool.report("partial\n", &BashEnd::TimedOut, 1);
    assert!(t.is_error && t.content.starts_with("command timed out after 1s\n"));
    let c = BashTool.report("x", &BashEnd::Cancelled, 1);
    assert_eq!((c.is_error, c.content.as_str()), (true, "command cancelled by user"));
    let w = BashTool.report("x", &BashEnd::WaitFailed("gone".into()), 1);
    assert!(w.content.starts_with("wait failed: gone\n"));
}

#[test]
fn search_and_listing_reports() {
    assert_eq!(GrepTool.pattern("fn main", true), "(?i)fn main");
    assert_eq!(GrepTool.pattern("fn main", false), "fn main");
    assert_eq!(GrepTool.hit("src/a.rs", 12, "let x = 1;   "), "src/a.rs:12: let x = 1;");
    assert_eq!(GrepTool.report(&vec![]).content, "no matches");
    let hits: Vec<String> = (0..500).map(|i| format!("f:{i}: x")).collect();
    let r = GrepTool.report(&hits);
    assert!(r.content.ends_with("\n[result capped at 500 matches — narrow the pattern]"));
    assert_eq!(GrepTool.report(&vec!["a:1: b".into()]).content, "a:1: b");
    assert!(GrepTool.selects("*.rs", "main.rs", "/w/src/main.rs"));
    assert!(!GrepTool.selects("*.toml", "main.rs", "/w/src/main.rs"));
    assert_eq!(GlobTool.report(&vec![]).content, "no files match");
    assert_eq!(GlobTool.report(&vec!["a".into(), "b".into()]).content, "a\nb");
    assert!(GlobTool.selects("**/*.rs", "src/lib.rs", "lib.rs"));
    let order = GlobTool.order(&vec![("old".into(), (1, 0)), ("new".into(), (5, 0)), ("mid".into(), (3, 0)), ("new2".into(), (5, 0))]);
    assert_eq!(order, vec!["new", "new2", "mid", "old"]);
    assert!(check_glob("**/*.rs").is_ok());
    let e = check_glob("a[").unwrap_err();
    assert!(e.starts_with("bad glob `a[`: "), "{e}");
}
