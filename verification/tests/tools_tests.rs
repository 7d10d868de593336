use rocinante::tools::{cap_diff, new_file_preview, read_output, truncate_output, ToolOutput};

#[test]
fn short_output_untouched() {
    assert_eq!(truncate_output("a\nb", 100, 10_000), "a\nb");
}

#[test]
fn long_output_keeps_head_and_tail() {
    let text: String = (0..1000).map(|i| format!("line{i}\n")).collect();
    let out = truncate_output(&text, 100, 100_000);
    assert!(out.contains("line0"));
    assert!(out.contains("line999"));
    assert!(out.contains("lines omitted"));
    assert!(out.lines().count() < 110);
}

#[test]
fn byte_cap_respects_char_boundaries() {
    let text = "é".repeat(10_000);
    let out = truncate_output(&text, 10, 1000);
    assert!(out.len() <= 1030);
}

#[test]
fn tool_output_constructors() {
    let ok = ToolOutput::ok("done");
    assert_eq!((ok.content.as_str(), ok.is_error), ("done", false));
    let err = ToolOutput::error("boom");
    assert_eq!((err.content.as_str(), err.is_error), ("boom", true));
}

#[test]
fn read_numbers_lines_and_reports_the_rest() {
    let o = read_output("a\nb\nc\n", Some(2), Some(1));
    assert!(!o.is_error);
    assert_eq!(o.content, "     2\tb\n\n[showing lines 2-2, file has 3 lines]");
    let o = read_output("a\nb\n", None, None);
    assert_eq!(o.content, "     1\ta\n     2\tb\n");
    let o = read_output("", None, None);
    assert_eq!(o.content, "(empty file)");
    let o = read_output("a\n", Some(5), None);
    assert!(o.is_error);
    assert_eq!(o.content, "offset 5 is past end of file (1 lines)");
}

#[test]
fn new_file_preview_counts_remaining_lines() {
    let content: String = (0..45).map(|i| format!("l{i}\n")).collect();
    let p = new_file_preview("src/x.rs", &content);
    assert!(p.starts_with("new file: src/x.rs\nl0\n"));
    assert!(p.ends_with("… (+5 more lines)"));
}

#[test]
fn long_diff_is_capped() {
    let d: String = (0..130).map(|i| format!("+{i}\n")).collect();
    let c = cap_diff(&d);
    assert!(c.ends_with("… (diff truncated, 10 more lines)"));
    assert_eq!(cap_diff("short\n"), "short\n");
}

#[test]
fn byte_cap_within_line_cap_states_the_cut() {
    let out = truncate_output("a\nb\nc\nd\nEEEEEEEEEE", 5, 10);
    assert_eq!(out, "a\nb\nc\nd\nEE\n... [output truncated]");
    assert!(out.contains("truncated"));
}
