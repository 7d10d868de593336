use rocinante::permissions::{Decision, Mode, PermissionEngine, PermissionsConfig, Rule, ToolArgs, ToolKind};

fn engine() -> PermissionEngine {
    PermissionEngine::from_config(&PermissionsConfig {
        allow: vec!["Bash(cargo test:*)".into()],
        deny: vec!["Bash(rm -rf:*)".into(), "Read(**/*.pem)".into()],
    })
}

fn cmd(c: &str) -> ToolArgs {
    ToolArgs { command: Some(c.into()), path: None }
}

fn path(p: &str) -> ToolArgs {
    ToolArgs { command: None, path: Some(p.into()) }
}

#[test]
fn deny_beats_everything_even_in_auto() {
    let e = engine();
    let d = e.evaluate(Mode::Auto, "bash", ToolKind::Execute, &cmd("rm -rf /tmp/x"));
    assert!(matches!(d, Decision::Deny { .. }));
    let d = e.evaluate(Mode::Auto, "read", ToolKind::ReadOnly, &path("certs/key.pem"));
    assert!(matches!(d, Decision::Deny { .. }));
}

#[test]
fn plan_mode_is_read_only() {
    let e = engine();
    assert_eq!(e.evaluate(Mode::Plan, "read", ToolKind::ReadOnly, &path("x")), Decision::Allow);
    assert!(matches!(e.evaluate(Mode::Plan, "edit", ToolKind::Edit, &path("x")), Decision::Deny { .. }));
}

#[test]
fn auto_allows_edits_but_asks_for_commands() {
    let e = engine();
    assert_eq!(e.evaluate(Mode::Auto, "edit", ToolKind::Edit, &path("x")), Decision::Allow);
    assert_eq!(e.evaluate(Mode::Auto, "bash", ToolKind::Execute, &cmd("cargo build")), Decision::Ask);
    assert_eq!(e.evaluate(Mode::Auto, "bash", ToolKind::Execute, &cmd("cargo test --all")), Decision::Allow);
}

#[test]
fn normal_asks_for_edits() {
    let e = engine();
    assert_eq!(e.evaluate(Mode::Normal, "edit", ToolKind::Edit, &path("x")), Decision::Ask);
}

#[test]
fn remembered_answers_stick() {
    let mut e = engine();
    let args = cmd("cargo build");
    assert_eq!(e.evaluate(Mode::Normal, "bash", ToolKind::Execute, &args), Decision::Ask);
    e.remember_allow("bash", &args);
    assert_eq!(e.evaluate(Mode::Normal, "bash", ToolKind::Execute, &args), Decision::Allow);
}

#[test]
fn parses_bare_and_matcher_forms() {
    assert_eq!(Rule::parse("Edit").unwrap(), Rule { tool: "Edit".into(), matcher: None });
    assert_eq!(
        Rule::parse("Bash(cargo test:*)").unwrap(),
        Rule { tool: "Bash".into(), matcher: Some("cargo test:*".into()) }
    );
    assert!(Rule::parse("Bash(unclosed").is_none());
    assert!(Rule::parse("").is_none());
}

#[test]
fn bash_prefix_matching() {
    let rule = Rule::parse("Bash(cargo test:*)").unwrap();
    assert!(rule.matches("bash", &cmd("cargo test")));
    assert!(rule.matches("bash", &cmd("cargo test --all")));
    assert!(!rule.matches("bash", &cmd("cargo testx")));
    assert!(!rule.matches("bash", &cmd("cargo build")));
}

#[test]
fn bash_exact_matching() {
    let rule = Rule::parse("Bash(git status)").unwrap();
    assert!(rule.matches("bash", &cmd("git status")));
    assert!(!rule.matches("bash", &cmd("git status --short")));
}

#[test]
fn path_glob_matching() {
    let rule = Rule::parse("Read(**/*.pem)").unwrap();
    assert!(rule.matches("read", &path("certs/server.pem")));
    assert!(!rule.matches("read", &path("src/main.rs")));
}

#[test]
fn deny_reason_names_the_rule() {
    let e = engine();
    match e.evaluate(Mode::Normal, "bash", ToolKind::Execute, &cmd("rm -rf /")) {
        Decision::Deny { reason } => assert!(reason.contains("rm -rf")),
        other => panic!("expected deny, got {other:?}"),
    }
}

#[test]
fn remembered_path_rule_is_exact() {
    let mut e = PermissionEngine::from_config(&PermissionsConfig::default());
    e.remember_allow("write", &path("a.txt"));
    assert_eq!(e.evaluate(Mode::Normal, "write", ToolKind::Edit, &path("a.txt")), Decision::Allow);
    assert_eq!(e.evaluate(Mode::Normal, "write", ToolKind::Edit, &path("b.txt")), Decision::Ask);
}

#[test]
fn unbalanced_parentheses_are_malformed() {
    assert!(Rule::parse("Bash(a(b)").is_none());
    assert!(Rule::parse("Bash(a))").is_none());
    assert_eq!(
        Rule::parse("Bash(echo (x))").unwrap(),
        Rule { tool: "Bash".into(), matcher: Some("echo (x)".into()) }
    );
}

#[test]
fn malformed_rules_are_ignored() {
    let with_junk = PermissionEngine::from_config(&PermissionsConfig {
        allow: vec!["Bash(unclosed".into(), "Bash(cargo test:*)".into(), "(".into()],
        deny: vec!["Read(a(b)".into()],
    });
    let clean = PermissionEngine::from_config(&PermissionsConfig {
        allow: vec!["Bash(cargo test:*)".into()],
        deny: vec![],
    });
    for (mode, tool, kind, args) in [
        (Mode::Normal, "bash", ToolKind::Execute, cmd("x")),
        (Mode::Normal, "bash", ToolKind::Execute, cmd("cargo test -q")),
        (Mode::Auto, "read", ToolKind::ReadOnly, path("a(b")),
    ] {
        assert_eq!(with_junk.evaluate(mode, tool, kind, &args), clean.evaluate(mode, tool, kind, &args));
    }
    assert_eq!(with_junk.evaluate(Mode::Normal, "bash", ToolKind::Execute, &cmd("x")), Decision::Ask);
}
