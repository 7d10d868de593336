use rocinante::edit::{apply_edit, exact_replace, fuzzy_replace, no_match_message, EditArgs};

fn args(old: &str, new: &str) -> EditArgs {
    EditArgs { path: "x".into(), old_string: old.into(), new_string: new.into(), replace_all: false }
}

#[test]
fn exact_single_replacement() {
    let (out, n) = exact_replace("fn a() {}\nfn b() {}", &args("fn a()", "fn c()")).unwrap();
    assert_eq!(n, 1);
    assert!(out.contains("fn c()"));
}

#[test]
fn ambiguous_without_replace_all_fails() {
    assert!(exact_replace("x\nx", &args("x", "y")).is_none());
}

#[test]
fn fuzzy_tolerates_trailing_whitespace() {
    let content = "line one   \nline two\n";
    let (out, _) = fuzzy_replace(content, &args("line one\nline two", "replaced")).unwrap();
    assert_eq!(out, "replaced\n");
}

#[test]
fn fuzzy_rejects_multiple_matches() {
    let content = "a\nb\na\nb\n";
    assert!(fuzzy_replace(content, &args("a\nb", "c")).is_none());
}

#[test]
fn replace_all_replaces_every_match() {
    let mut a = args("x", "y");
    a.replace_all = true;
    let (out, n) = exact_replace("x\nx\nx", &a).unwrap();
    assert_eq!(n, 3);
    assert_eq!(out, "y\ny\ny");
}

#[test]
fn no_match_points_at_closest_line() {
    let m = no_match_message("fn main() {\n    run();\n}\n", "fn mian() {");
    assert!(m.contains("fn main() {"), "{m}");
    let m = no_match_message("x\nx\n", "x");
    assert!(m.contains("matches 2 times"), "{m}");
}

#[test]
fn identical_strings_are_refused() {
    assert!(apply_edit("abc", &args("b", "b")).is_err());
    let (out, n) = apply_edit("abc", &args("b", "z")).unwrap();
    assert_eq!((out.as_str(), n), ("azc", 1));
}
