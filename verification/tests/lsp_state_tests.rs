use rocinante::lsp_state::{choose_client, ClientChoice, DiagnosticsStore, DocVersions, SyncKind, MAX_CLIENTS};
use rocinante::positions::{Diagnostic, Severity};

fn diag(message: &str) -> Diagnostic {
    Diagnostic { line: 0, character: 0, severity: Some(Severity::Error), message: message.to_string() }
}

#[test]
fn versions_open_then_change_per_document() {
    let mut v = DocVersions::new();
    assert_eq!(v.bump("file:///a.rs"), (1, SyncKind::Open));
    assert_eq!(v.bump("file:///a.rs"), (2, SyncKind::Change));
    assert_eq!(v.bump("file:///b.rs"), (1, SyncKind::Open));
    assert_eq!(v.bump("file:///a.rs"), (3, SyncKind::Change));
}

#[test]
fn store_counts_publishes_and_reads_back() {
    let mut s = DiagnosticsStore::new();
    assert_eq!(s.generation(), 0);
    assert!(s.get("u").is_none());
    s.update("u", Some(1), vec![diag("old")]);
    s.update("w", None, vec![]);
    assert_eq!(s.generation(), 2);
    assert_eq!(s.get("u").unwrap()[0].message, "old");
    assert!(s.get("w").unwrap().is_empty());
    s.update("u", Some(2), vec![diag("new")]);
    assert_eq!(s.get("u").unwrap()[0].message, "new");
    assert!(s.get("w").unwrap().is_empty());
}

#[test]
fn stale_publish_does_not_answer_a_newer_wait() {
    let mut s = DiagnosticsStore::new();
    s.update("u", Some(1), vec![diag("old")]);
    let since = s.generation();
    assert!(s.fresh("u", 2, since, false).is_none());
    s.update("u", Some(2), vec![diag("new")]);
    assert_eq!(s.fresh("u", 2, since, false).unwrap()[0].message, "new");
}

#[test]
fn unversioned_publish_must_come_after_the_sync() {
    let mut s = DiagnosticsStore::new();
    s.update("u", None, vec![diag("a")]);
    let since = s.generation();
    assert!(s.fresh("u", 5, since, false).is_none());
    s.update("u", None, vec![diag("b")]);
    assert_eq!(s.fresh("u", 5, since, false).unwrap()[0].message, "b");
}

#[test]
fn empty_first_publish_is_not_trusted() {
    let mut s = DiagnosticsStore::new();
    s.update("u", Some(1), vec![]);
    assert!(s.fresh("u", 1, 0, true).is_none());
    assert!(s.fresh("u", 1, 0, false).unwrap().is_empty());
    s.update("u", Some(1), vec![diag("real")]);
    assert_eq!(s.fresh("u", 1, 0, true).unwrap()[0].message, "real");
}

#[test]
fn clients_are_reused_per_server_and_root_and_capped() {
    let mut running = vec![("rust".to_string(), "/p".to_string())];
    assert_eq!(choose_client(&running, "rust", "/p"), ClientChoice::Reuse(0));
    assert_eq!(choose_client(&running, "rust", "/q"), ClientChoice::Spawn);
    while running.len() < MAX_CLIENTS {
        running.push(("go".to_string(), format!("/g{}", running.len())));
    }
    assert_eq!(choose_client(&running, "python", "/p"), ClientChoice::Full);
    assert_eq!(choose_client(&running, "go", "/g1"), ClientChoice::Reuse(1));
}
