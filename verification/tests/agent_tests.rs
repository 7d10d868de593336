use rocinante::agent::{
    apply_stubs, compacted_seqs, compaction_inputs, tool_call_format_schema, declined_result, denied_result, effort_think, old_seq_range, order_results, output_preview,
    partition_calls, prune_plan, rejected_result, resume_into, run_result, splice_pending, unknown_tool_result,
    AgentError, PendingCompaction, PermissionDecision, Turn, TurnEnd,
};
use rocinante::model::{Effort, Message, Role, ToolCall};
use rocinante::permissions::ToolKind;
use rocinante::tools::ToolOutput;

#[test]
fn turn_limits_and_repair_rounds() {
    let mut t = Turn::new(2);
    assert!(t.start_iteration());
    assert!(!t.use_format_fallback());
    assert!(t.after_validation(true, true));
    assert!(t.start_iteration());
    assert!(t.after_validation(true, true));
    assert!(t.use_format_fallback());
    assert!(!t.start_iteration());
    t.note_reply("done", false);
    t.note_reply("", false);
    t.note_reply("json", true);
    let (r, event, counts) = t.finish(TurnEnd::Failed(AgentError::IterationLimit(2)));
    let r = r.unwrap();
    assert_eq!((r.final_text.as_str(), r.iterations), ("done", 2));
    assert_eq!(event.as_deref(), Some("stopped after 2 model calls without finishing"));
    assert!(counts);
    let (r, event, counts) = Turn::new(3).finish(TurnEnd::Failed(AgentError::Cancelled));
    assert_eq!(r.unwrap_err(), AgentError::Cancelled);
    assert!(event.is_none() && !counts);
    assert_eq!(AgentError::IterationLimit(40).message(), "iteration limit (40) reached");
    assert_eq!(AgentError::Cancelled.message(), "turn cancelled");
    assert!(matches!(PermissionDecision::AlwaysAllow, PermissionDecision::AlwaysAllow));
}

#[test]
fn readonly_calls_partitioned_and_results_ordered() {
    let kinds = vec![Some(ToolKind::Edit), Some(ToolKind::ReadOnly), None, Some(ToolKind::Spawn), Some(ToolKind::Execute)];
    let (conc, seq) = partition_calls(&kinds);
    assert_eq!(conc, vec![1, 3]);
    assert_eq!(seq, vec![0, 2, 4]);
    let results = vec![
        (3, Message::tool_result("d", "3")),
        (1, Message::tool_result("b", "1")),
        (0, Message::tool_result("a", "0")),
        (2, Message::tool_result("c", "2")),
    ];
    let ordered = order_results(&results, 5);
    let contents: Vec<&str> = ordered.iter().map(|m| m.content.as_str()).collect();
    assert_eq!(contents, vec!["0", "1", "2", "3"]);
}

#[test]
fn tool_result_texts() {
    let m = unknown_tool_result("c1", "fly", &vec!["bash", "read"]);
    assert_eq!(m.content, "unknown tool `fly`. Available tools: bash, read");
    assert_eq!(m.tool_call_id.as_deref(), Some("c1"));
    assert_eq!(denied_result("c", "rule").content, "Permission denied: rule");
    assert!(declined_result("c").content.starts_with("The user declined this action."));
    assert_eq!(rejected_result("c", "bad").content, "Tool call rejected: bad. Re-emit the call correcting this.");
    let e = run_result("c", &ToolOutput { content: "boom".into(), is_error: true });
    assert_eq!((e.role, e.content.as_str()), (Role::Tool, "ERROR: boom"));
    assert_eq!(run_result("c", &ToolOutput { content: "fine".into(), is_error: false }).content, "fine");
    assert_eq!(output_preview(&"x".repeat(300)).len(), 200);
}

#[test]
fn effort_controls_thinking() {
    assert_eq!(effort_think(Effort::Low, Some(true)), Some(false));
    assert_eq!(effort_think(Effort::High, Some(false)), None);
    assert_eq!(effort_think(Effort::Medium, Some(true)), Some(true));
    assert_eq!(effort_think(Effort::Medium, None), None);
}

#[test]
fn proactive_splice_keeps_system_and_tail() {
    let messages = vec![
        Message::system("sys"),
        Message::user("old q"),
        Message::assistant("old a"),
        Message::user("new q"),
    ];
    let seqs = vec![2, 3, 4, 5];
    let pending = PendingCompaction {
        generation: 7,
        old_len: 2,
        old_range: Some((3, 4)),
        replacement: vec![Message::user("summary"), Message::assistant("ack")],
    };
    let (m, s) = splice_pending(&messages, &seqs, 7, &pending).unwrap();
    let contents: Vec<&str> = m.iter().map(|x| x.content.as_str()).collect();
    assert_eq!(contents, vec!["sys", "summary", "ack", "new q"]);
    assert_eq!(s, vec![2, 0, 0, 0]);
    assert!(splice_pending(&messages, &seqs, 8, &pending).is_none(), "stale summary discarded");
    assert_eq!(old_seq_range(&vec![2, 0, 3, 0, 4, 9], 4), Some((3, 4)));
    assert_eq!(old_seq_range(&vec![2, 0, 0], 2), None);
}

#[test]
fn resumed_messages_follow_current_system() {
    let mut messages = vec![Message::system("current")];
    let mut seqs = vec![1];
    resume_into(&mut messages, &mut seqs, &vec![Message::system("stored"), Message::user("q"), Message::assistant("a")]);
    let contents: Vec<&str> = messages.iter().map(|x| x.content.as_str()).collect();
    assert_eq!(contents, vec!["current", "q", "a"]);
    assert_eq!(seqs, vec![1, 0, 0]);
}

#[test]
fn pruning_stubs_old_results_once() {
    let mut call = Message::assistant("");
    call.tool_calls = vec![ToolCall { id: "c1".into(), name: "bash".into(), arguments: "{}".into() }];
    let big = "line one\n".to_string() + &"y".repeat(300);
    let mut messages = vec![
        Message::system("s"),
        Message::user("q1"),
        call,
        Message::tool_result("c1", &big),
        Message::tool_result("c9", "small"),
        Message::user("q2"),
    ];
    let stubs = prune_plan(&messages, 5);
    assert_eq!(stubs.len(), 1);
    assert_eq!(stubs[0].0, 3);
    assert!(stubs[0].1.starts_with("[pruned tool result: bash — 2 lines / 309 bytes — first line: \"line one\""), "{}", stubs[0].1);
    apply_stubs(&mut messages, stubs);
    assert!(messages[3].content.starts_with("[pruned tool result"));
    assert!(prune_plan(&messages, 5).is_empty(), "idempotent");
}

#[test]
fn compaction_inputs_take_first_user_goal_and_plain_transcript() {
    let old = vec![Message::assistant("hi"), Message::user("fix the bug"), Message::user("also tests")];
    let (goal, transcript) = compaction_inputs(&old);
    assert_eq!(goal, "fix the bug");
    assert_eq!(transcript, "[Assistant] hi\n[User] fix the bug\n[User] also tests\n");
    let (goal, transcript) = compaction_inputs(&[Message::assistant("x")]);
    assert_eq!(goal, "");
    assert_eq!(transcript, "[Assistant] x\n");
}

#[test]
fn compacted_seqs_keep_only_the_system_seq() {
    assert_eq!(compacted_seqs(7, 4), vec![7, 0, 0, 0]);
    assert_eq!(compacted_seqs(0, 1), vec![0]);
}

#[test]
fn format_schema_lists_tool_names() {
    let s = tool_call_format_schema(&vec!["bash".to_string(), "read".to_string()]);
    let v: serde_json::Value = serde_json::from_str(&s).unwrap();
    assert_eq!(v["required"][0], serde_json::Value::from("tool_calls"));
    let item = &v["properties"]["tool_calls"]["items"];
    assert_eq!(item["properties"]["name"]["enum"][1], serde_json::Value::from("read"));
    assert_eq!(v["properties"]["tool_calls"]["minItems"], serde_json::Value::from(1));
    assert_eq!(item["required"][1], serde_json::Value::from("arguments"));
}
