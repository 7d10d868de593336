use rocinante::registry::ToolNames;

fn standard_set() -> ToolNames {
    let mut r = ToolNames::new();
    for n in ["read", "write", "edit", "bash", "grep", "glob"] {
        r.register(n);
    }
    r
}

#[test]
fn names_come_out_sorted_once_each() {
    let mut r = standard_set();
    assert_eq!(r.names(), vec!["bash", "edit", "glob", "grep", "read", "write"]);
    assert_eq!(r.register("grep"), 3);
    assert_eq!(r.register("lsp"), 4);
    assert_eq!(r.names(), vec!["bash", "edit", "glob", "grep", "lsp", "read", "write"]);
    assert_eq!(r.register("task"), 6);
    assert_eq!(r.register("Zed"), 0);
}

#[test]
fn lookup_is_exact_then_caseless() {
    let r = standard_set();
    assert_eq!(r.get("read"), Some(4));
    assert_eq!(r.get("READ"), Some(4));
    assert_eq!(r.get("Bash"), Some(0));
    assert_eq!(r.get("reader"), None);
}

#[test]
fn subset_keeps_listed_tools_in_order() {
    let r = standard_set();
    let s = r.subset(&vec!["Grep".to_string(), "read".to_string(), "nope".to_string()]);
    assert_eq!(s.names(), vec!["grep", "read"]);
    assert!(r.subset(&vec![]).names().is_empty());
}
