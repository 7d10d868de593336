use rocinante::model::{Message, Role};
use rocinante::session::{
    ends_mid_turn, is_session_file, pick_latest, record_lines_of, replay, sessions_dir, Envelope,
    Record, ResumeInfo, SessionChoice, SessionError,
};

fn env(seq: u64, record: Record) -> Envelope {
    Envelope { seq, ts: seq.to_string(), record }
}

fn msg(m: Message) -> Record {
    Record::Message { message: m }
}

#[test]
fn roundtrip_and_resume() {
    let envelopes = vec![
        env(1, Record::Meta { session_id: "abc-123".into(), cwd: "/w".into(), model: "test-model".into() }),
        env(2, msg(Message::system("sys"))),
        env(3, msg(Message::user("hello"))),
        env(4, msg(Message::assistant("hi there"))),
    ];
    let r = replay(&envelopes);
    assert_eq!(r.session_id.as_deref(), Some("abc-123"));
    assert_eq!(r.last_seq, 4);
    assert_eq!(r.messages.len(), 3);
    assert_eq!(r.messages[1].content, "hello");
    assert!(!ends_mid_turn(&r.messages));
}

#[test]
fn compaction_replaces_range_on_resume() {
    let envelopes = vec![
        env(1, Record::Meta { session_id: "s".into(), cwd: "/w".into(), model: "m".into() }),
        env(2, msg(Message::system("sys"))),
        env(3, msg(Message::user("old work"))),
        env(4, msg(Message::assistant("old result"))),
        env(5, msg(Message::user("recent"))),
        env(6, Record::Compaction { from_seq: 3, to_seq: 4, replacement: vec![Message::user("[summary of old work]")] }),
    ];
    let r = replay(&envelopes);
    let contents: Vec<&str> = r.messages.iter().map(|m| m.content.as_str()).collect();
    assert_eq!(contents, vec!["sys", "[summary of old work]", "recent"]);
    assert_eq!(r.last_seq, 6);
}

#[test]
fn prune_stub_records_replace_single_messages() {
    let envelopes = vec![
        env(2, msg(Message::user("a"))),
        env(3, msg(Message::tool_result("c1", "long output"))),
        env(4, msg(Message::assistant("b"))),
        env(5, Record::Compaction { from_seq: 3, to_seq: 3, replacement: vec![Message::tool_result("c1", "[pruned tool result: stub]")] }),
        env(6, Record::ModeChange { mode: "Auto".into() }),
        env(7, Record::ModelChange { model: "x".into() }),
    ];
    let r = replay(&envelopes);
    let contents: Vec<&str> = r.messages.iter().map(|m| m.content.as_str()).collect();
    assert_eq!(contents, vec!["a", "[pruned tool result: stub]", "b"]);
    assert_eq!(r.messages[1].role, Role::Tool);
    assert_eq!(r.session_id, None);
    assert_eq!(r.last_seq, 7);
}

#[test]
fn latest_finds_newest_session() {
    let cands = vec![
        ("/p/.rocinante/sessions/a.jsonl".to_string(), (100u64, 5u32)),
        ("/p/.rocinante/sessions/notes.txt".to_string(), (900, 0)),
        ("/p/.rocinante/sessions/b.jsonl".to_string(), (100, 7)),
        ("/p/.rocinante/sessions/c.jsonl".to_string(), (100, 7)),
    ];
    assert_eq!(pick_latest(&cands).as_deref(), Some("/p/.rocinante/sessions/b.jsonl"));
    assert_eq!(pick_latest(&vec![]), None);
}

#[test]
fn mid_turn_detection() {
    assert!(ends_mid_turn(&vec![Message::user("hi")]));
    assert!(!ends_mid_turn(&vec![Message::assistant("done")]));
    assert!(ends_mid_turn(&vec![Message::tool_result("c", "out")]));
    assert!(!ends_mid_turn(&vec![]));
}

#[test]
fn record_lines_skip_blanks_and_keep_numbers() {
    let lines = record_lines_of("{\"a\":1}\n\n   \n{\"b\":2}\r\n");
    assert_eq!(lines, vec![(1, "{\"a\":1}".to_string()), (4, "{\"b\":2}".to_string())]);
}

#[test]
fn session_files_and_dir() {
    assert_eq!(sessions_dir("/work/p"), "/work/p/.rocinante/sessions");
    assert!(is_session_file("/x/abc.jsonl"));
    assert!(!is_session_file("/x/.jsonl"));
    assert!(!is_session_file("/x/abc.json"));
    assert!(!is_session_file("/x/jsonl"));
}

#[test]
fn session_error_messages() {
    assert_eq!(SessionError::Corrupt { line: 7, error: "bad".into() }.message(), "corrupt session line 7: bad");
    assert_eq!(SessionError::NoSessions("/d".into()).message(), "no sessions found in /d");
    assert_eq!(SessionError::Io("denied".into()).message(), "session io error: denied");
}

#[test]
fn resume_info_summarizes_context() {
    let messages = vec![Message::system("s"), Message::user("q")];
    let info = ResumeInfo::of("id-1", &messages);
    assert_eq!(info.session_id, "id-1");
    assert_eq!(info.message_count, 2);
    assert!(info.mid_turn);
    assert!(matches!(SessionChoice::Continue, SessionChoice::Continue));
}
