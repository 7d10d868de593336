use rocinante::json::quote_json;
use rocinante::interval::{display, parse};
use rocinante::ollama::{is_cloud_tag, wire_think, ThinkWire};
use rocinante::model::Effort;
use rocinante::terminal::sanitize_terminal;
use rocinante::tokens::estimate_text;

#[test]
fn parses_units() {
    assert_eq!(parse("30s").unwrap(), 30);
    assert_eq!(parse("5m").unwrap(), 300);
    assert_eq!(parse("1h").unwrap(), 3600);
}

#[test]
fn rejects_bad_input() {
    assert!(parse("").is_err());
    assert!(parse("5x").is_err());
    assert!(parse("m").is_err());
    assert!(parse("0m").is_err());
    assert!(parse("2s").is_err());
}

#[test]
fn displays_compactly() {
    assert_eq!(display(300), "5m");
    assert_eq!(display(3600), "1h");
    assert_eq!(display(45), "45s");
}

#[test]
fn display_then_parse_round_trips() {
    for secs in [10u64, 45, 60, 300, 3600, 7200] {
        assert_eq!(parse(&display(secs)).unwrap(), secs);
    }
}

#[test]
fn strips_escapes_keeps_text_and_whitespace() {
    let evil = "hi\x1b]52;c;ZXZpbA==\x07there\x1b]0;pwned\x07\ndone\t!";
    let clean = sanitize_terminal(evil);
    assert!(!clean.contains('\x1b'));
    assert!(!clean.contains('\x07'));
    assert_eq!(clean, "hi]52;c;ZXZpbA==there]0;pwned\ndone\t!");
}

#[test]
fn plain_text_is_unchanged() {
    assert_eq!(sanitize_terminal("normal output 123"), "normal output 123");
}

#[test]
fn c1_controls_are_stripped_too() {
    assert_eq!(sanitize_terminal("a\u{9b}b\u{7f}c"), "abc");
}

#[test]
fn cloud_tags_by_suffix_only() {
    assert!(is_cloud_tag("minimax-m3:cloud"));
    assert!(is_cloud_tag("kimi-k2.7-code:cloud"));
    assert!(is_cloud_tag("gemma4:31b-cloud"));
    assert!(!is_cloud_tag("llama3:8b"));
    assert!(!is_cloud_tag("glm-5.2"));
    assert!(!is_cloud_tag("cloudy:latest"));
}

#[test]
fn think_stays_explicit_and_effort_refines() {
    assert_eq!(wire_think(None, Effort::High, "qwen3:8b"), None);
    assert_eq!(wire_think(Some(true), Effort::High, "qwen3:8b"), Some(ThinkWire::Flag(true)));
    assert_eq!(wire_think(Some(true), Effort::High, "gpt-oss:20b"), Some(ThinkWire::Level("high".into())));
    assert_eq!(wire_think(Some(true), Effort::Medium, "gpt-oss:20b"), Some(ThinkWire::Level("medium".into())));
    assert_eq!(wire_think(Some(true), Effort::Low, "qwen3:8b"), Some(ThinkWire::Flag(false)));
    assert_eq!(wire_think(Some(false), Effort::High, "qwen3:8b"), Some(ThinkWire::Flag(false)));
}

#[test]
fn estimate_scales_with_length() {
    assert!(estimate_text("hello world, this is a test") > estimate_text("hi"));
}

#[test]
fn estimate_is_bytes_over_three_and_a_half_rounded_up() {
    assert_eq!(estimate_text(""), 0);
    assert_eq!(estimate_text("abcdefg"), 2);
    assert_eq!(estimate_text("é"), 1);
}

#[test]
fn display_parses_back() {
    for secs in [5u64, 45, 60, 300, 3600, 5400, 7200, 86_400, 3_601] {
        assert_eq!(parse(&display(secs)).unwrap(), secs);
    }
}

#[test]
fn json_string_literals_escape_quotes_backslashes_and_controls() {
    assert_eq!(quote_json("plain"), "\"plain\"");
    assert_eq!(quote_json("a\"b\\c"), "\"a\\\"b\\\\c\"");
    assert_eq!(quote_json("x\ny\tz\u{8}\u{c}\r"), "\"x\\ny\\tz\\b\\f\\r\"");
    assert_eq!(quote_json("\u{1}\u{1f}\u{7f}é"), "\"\\u0001\\u001f\u{7f}é\"");
}
