use rocinante::config::LspServerConfig;
use rocinante::lsp::{language_id, resolve_servers, server_for};
use rocinante::positions::{format_diagnostics, from_lsp_character, to_lsp_position, Diagnostic, Encoding, Severity, PENDING_NOTE};
use rocinante::transport::{answer_server_request, extract_message, frame, FrameError};

#[test]
fn builtins_present_by_default() {
    let servers = resolve_servers(&vec![]);
    let names: Vec<&str> = servers.iter().map(|s| s.name.as_str()).collect();
    assert_eq!(names, ["rust", "typescript", "python", "go"]);
    assert_eq!(servers[0].commands[0].0, "rust-analyzer");
    assert_eq!(servers[0].root_markers, ["Cargo.toml"]);
}

#[test]
fn disabled_removes_a_builtin() {
    let cfg = vec![("rust".to_string(), LspServerConfig { disabled: true, ..Default::default() })];
    let servers = resolve_servers(&cfg);
    assert!(!servers.iter().any(|s| s.name == "rust"));
    assert!(servers.iter().any(|s| s.name == "go"));
}

#[test]
fn override_keeps_unset_builtin_fields() {
    let cfg = vec![(
        "rust".to_string(),
        LspServerConfig { command: Some("ra-custom".into()), args: vec!["--flag".into()], ..Default::default() },
    )];
    let servers = resolve_servers(&cfg);
    let rust = servers.iter().find(|s| s.name == "rust").unwrap();
    assert_eq!(rust.commands, [("ra-custom".to_string(), vec!["--flag".to_string()])]);
    assert_eq!(rust.filetypes, ["rs"]);
    assert_eq!(rust.root_markers, ["Cargo.toml"]);
}

#[test]
fn custom_server_needs_command_and_filetypes() {
    let cfg = vec![
        ("broken".to_string(), LspServerConfig::default()),
        ("zig".to_string(), LspServerConfig { command: Some("zls".into()), filetypes: vec!["zig".into()], ..Default::default() }),
    ];
    let servers = resolve_servers(&cfg);
    let zig = servers.iter().find(|s| s.name == "zig").unwrap();
    assert_eq!(zig.root_markers, [".git"]);
    assert!(!servers.iter().any(|s| s.name == "broken"));
}

#[test]
fn files_route_by_extension() {
    let servers = resolve_servers(&vec![]);
    assert_eq!(server_for(&servers, "/p/src/main.RS"), Some(0));
    assert_eq!(server_for(&servers, "/p/web/app.tsx"), Some(1));
    assert_eq!(server_for(&servers, "/p/README"), None);
    assert_eq!(language_id("/p/a.tsx"), "typescriptreact");
    assert_eq!(language_id("/p/a.PY"), "python");
    assert_eq!(language_id("/p/.bashrc"), "plaintext");
}

#[test]
fn position_conversion_utf16_vs_utf8_on_non_ascii_line() {
    let content = "let é🦀 = 1;\nnext";
    assert_eq!(content.lines().next().unwrap().as_bytes()[11], b'=');
    let utf8 = to_lsp_position(content, 1, 12, Encoding::Utf8);
    assert_eq!((utf8.line, utf8.character), (0, 11));
    let utf16 = to_lsp_position(content, 1, 12, Encoding::Utf16);
    assert_eq!((utf16.line, utf16.character), (0, 8));
    let line = content.lines().next().unwrap();
    assert_eq!(from_lsp_character(line, utf8.character, Encoding::Utf8), 12);
    assert_eq!(from_lsp_character(line, utf16.character, Encoding::Utf16), 12);
}

#[test]
fn position_clamps_out_of_range() {
    let p = to_lsp_position("ab\n", 1, 99, Encoding::Utf16);
    assert_eq!((p.line, p.character), (0, 2));
    let p = to_lsp_position("ab\n", 9, 1, Encoding::Utf16);
    assert_eq!((p.line, p.character), (8, 0));
    assert_eq!(from_lsp_character("ab", 99, Encoding::Utf16), 3);
}

fn diag(line: u32, severity: Severity, message: &str) -> Diagnostic {
    Diagnostic { line, character: 0, severity: Some(severity), message: message.into() }
}

#[test]
fn formatting_orders_caps_and_counts() {
    let mut diags: Vec<Diagnostic> = (0..8).map(|i| diag(20 + i, Severity::Warning, &format!("warn {i}"))).collect();
    for i in 0..7 {
        diags.push(diag(i, Severity::Error, &format!("err {i}")));
    }
    diags.push(diag(50, Severity::Hint, "hint ignored"));
    let out = format_diagnostics("src/lib.rs", "", &diags, Encoding::Utf16);
    assert!(out.starts_with("diagnostics: 7 error(s), 8 warning(s)"));
    assert!(out.contains("… 5 more not shown"));
    assert!(!out.contains("hint ignored"));
    let body: Vec<&str> = out.lines().skip(1).collect();
    assert!(body[0].contains("src/lib.rs:1:1 error err 0"));
    assert_eq!(body.iter().filter(|l| l.contains(" error ")).count(), 7);
    assert_eq!(body.iter().filter(|l| l.contains(" warning ")).count(), 3);
}

#[test]
fn clean_and_pending_wording() {
    let out = format_diagnostics("x.rs", "", &vec![], Encoding::Utf16);
    assert_eq!(out, "diagnostics: no errors or warnings");
    assert!(PENDING_NOTE.contains("diagnostics pending"));
    assert!(PENDING_NOTE.contains("action=diagnostics"));
}

#[test]
fn diagnostics_sort_stably_and_flatten_messages() {
    let diags = vec![
        Diagnostic { line: 1, character: 4, severity: None, message: "b\nc".into() },
        Diagnostic { line: 1, character: 4, severity: Some(Severity::Error), message: "second".into() },
        Diagnostic { line: 0, character: 2, severity: Some(Severity::Error), message: "first".into() },
    ];
    let out = format_diagnostics("f.rs", "héllo\nabcdef\n", &diags, Encoding::Utf8);
    assert_eq!(out, "diagnostics: 3 error(s), 0 warning(s)\nf.rs:1:3 error first\nf.rs:2:5 error b c\nf.rs:2:5 error second");
}

fn frame_of(v: &str) -> Vec<u8> {
    frame(v.as_bytes())
}

#[test]
fn two_messages_in_one_buffer() {
    let a = r#"{"jsonrpc":"2.0","id":1,"result":"one"}"#;
    let b = r#"{"jsonrpc":"2.0","method":"n","params":[2]}"#;
    let mut buf = frame_of(a);
    buf.extend(frame_of(b));
    assert_eq!(extract_message(&mut buf).unwrap().unwrap(), a.as_bytes());
    assert_eq!(extract_message(&mut buf).unwrap().unwrap(), b.as_bytes());
    assert!(buf.is_empty());
    assert_eq!(extract_message(&mut buf).unwrap(), None);
}

#[test]
fn partial_buffer_waits_for_the_rest() {
    let msg = r#"{"jsonrpc":"2.0","id":7,"result":{"k":"vvvv"}}"#;
    let full = frame_of(msg);
    let mut buf = Vec::new();
    let mut got = Vec::new();
    for byte in full {
        buf.push(byte);
        if let Some(m) = extract_message(&mut buf).unwrap() {
            got.push(m);
        }
    }
    assert_eq!(got, vec![msg.as_bytes().to_vec()]);
    assert!(buf.is_empty());
}

#[test]
fn extra_headers_are_tolerated() {
    let msg = r#"{"ok":true}"#;
    let mut buf = format!("Content-Type: application/vscode-jsonrpc\r\ncontent-length: {}\r\n\r\n", msg.len()).into_bytes();
    buf.extend(msg.as_bytes());
    assert_eq!(extract_message(&mut buf).unwrap().unwrap(), msg.as_bytes());
}

#[test]
fn bad_frames_are_errors() {
    let mut buf = b"X-Other: 1\r\n\r\n{}".to_vec();
    assert_eq!(extract_message(&mut buf), Err(FrameError::MissingLength));
    let mut buf = b"Content-Length: ten\r\n\r\n{}".to_vec();
    assert_eq!(extract_message(&mut buf), Err(FrameError::BadLength));
    let mut buf = b"Content-Length: 2\r\n\r\n{x".to_vec();
    assert_eq!(extract_message(&mut buf), Err(FrameError::BadJson));
    assert_eq!(buf.len(), 23, "the buffer is kept on error");
}

#[test]
fn workspace_configuration_answers_null_per_item() {
    let params = r#"{"items":[{"section":"rust-analyzer"},{"section":"x"}]}"#;
    assert_eq!(answer_server_request("workspace/configuration", params).unwrap(), "[null,null]");
    assert_eq!(answer_server_request("workspace/configuration", "{}").unwrap(), "[]");
    assert_eq!(answer_server_request("window/workDoneProgress/create", "{}").as_deref(), Some("null"));
    assert_eq!(answer_server_request("window/showDocument", "{}"), None);
}
