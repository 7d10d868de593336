use rocinante::checker::{check_prompt, command_report, parse_verdict, settle_check, tail_chars, CheckRun};

#[test]
fn check_prompt_has_parts_and_ok_bias() {
    let p = check_prompt("do X", "did X", "[edit] a.rs");
    assert!(p.contains("do X") && p.contains("did X") && p.contains("[edit] a.rs"));
    assert!(p.contains("respond with exactly: OK"));
    assert!(p.contains("If you are unsure, respond OK"));
}

#[test]
fn parse_verdict_variants() {
    assert_eq!(parse_verdict("OK"), (true, String::new()));
    assert_eq!(parse_verdict("  OK  "), (true, String::new()));
    assert_eq!(parse_verdict("OK, looks complete"), (true, String::new()));
    assert_eq!(parse_verdict(""), (true, String::new()));
    let (ok, f) = parse_verdict("- missing tests\n- no error handling");
    assert!(!ok && f.contains("missing tests"));
}

#[test]
fn tail_keeps_last_n() {
    assert_eq!(tail_chars("abcdef", 3), "def");
    assert_eq!(tail_chars("ab", 5), "ab");
}

#[test]
fn lowercase_ok_passes_but_bullets_fail() {
    assert_eq!(parse_verdict("ok"), (true, String::new()));
    let (ok, f) = parse_verdict("OK\n* but the README is missing");
    assert!(!ok);
    assert_eq!(f, "OK\n* but the README is missing");
}

#[test]
fn check_command_pass_and_fail() {
    let pass = command_report("exit 0", &CheckRun::Finished { success: true, output: String::new() });
    assert!(!pass.failed && pass.summary.contains("PASS"));
    let fail = command_report("echo boom >&2; exit 1", &CheckRun::Finished { success: false, output: "boom\n".into() });
    assert!(fail.failed && fail.summary.contains("FAIL") && fail.summary.contains("boom"));
    let t = command_report("sleep 9", &CheckRun::TimedOut);
    assert!(t.failed);
    assert_eq!(t.summary, "check (sleep 9): timed out");
}

#[test]
fn failing_command_overrides_an_ok_verdict() {
    let fail = command_report("cargo test", &CheckRun::Finished { success: false, output: "x".repeat(2000) });
    assert!(fail.summary.ends_with(&"x".repeat(1500)));
    assert!(!fail.summary.contains(&"x".repeat(1501)));
    let (ok, findings) = settle_check(Some("OK"), Some(&fail));
    assert!(!ok);
    assert_eq!(findings, fail.summary);
    let (ok, findings) = settle_check(Some("- gap"), Some(&fail));
    assert!(!ok);
    assert!(findings.starts_with("- gap\n\ncheck (cargo test): FAIL"));
    let (ok, findings) = settle_check(None, None);
    assert!(ok && findings.is_empty());
}

#[test]
fn ambiguous_verdict_counts_as_ok() {
    assert_eq!(parse_verdict("Looks mostly fine"), (true, String::new()));
    assert_eq!(parse_verdict("The README is missing."), (true, String::new()));
    let (ok, f) = parse_verdict("Gaps:\n  - no tests");
    assert!(!ok);
    assert_eq!(f, "Gaps:\n  - no tests");
}
