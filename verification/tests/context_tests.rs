use rocinante::context::{ContextManager, ContextPlan, PRUNE_STUB_PREFIX, TRANSCRIPT_MAX_BYTES, TRANSCRIPT_MSG_CAP};
use rocinante::model::{Message, Role};

fn msg_turn(user: &str, assistant: &str) -> Vec<Message> {
    vec![Message::user(user), Message::assistant(assistant)]
}

#[test]
fn small_context_fits() {
    let cm = ContextManager::new(32_768, 3);
    let messages = vec![Message::system("sys"), Message::user("hi")];
    assert_eq!(cm.plan(&messages, &[]), ContextPlan::Fits);
}

#[test]
fn oversized_context_needs_compaction() {
    let cm = ContextManager::new(8192, 3);
    let big = "x".repeat(20_000);
    let mut messages = vec![Message::system("sys")];
    messages.extend(msg_turn(&big, &big));
    assert_eq!(cm.plan(&messages, &[]), ContextPlan::NeedsCompaction);
}

#[test]
fn plan_three_bands() {
    let cm = ContextManager::new(8192, 3);
    let sized = |bytes: usize| {
        vec![Message::system("sys"), Message::user(&"x".repeat(bytes)), Message::assistant("ok")]
    };
    assert_eq!(cm.plan(&sized(1000), &[]), ContextPlan::Fits);
    assert_eq!(cm.plan(&sized(10_000), &[]), ContextPlan::NearBudget);
    assert_eq!(cm.plan(&sized(20_000), &[]), ContextPlan::NeedsCompaction);
}

#[test]
fn split_keeps_last_two_turns() {
    let cm = ContextManager::new(8192, 3);
    let mut messages = vec![Message::system("sys")];
    for i in 0..5 {
        messages.extend(msg_turn(&format!("turn {i}"), "done"));
    }
    let (system, old, kept) = cm.split_for_compaction(&messages).unwrap();
    assert_eq!(system.role, Role::System);
    assert_eq!(kept.iter().filter(|m| m.role == Role::User).count(), 2);
    assert!(old.iter().any(|m| m.content == "turn 0"));
    assert!(kept.iter().any(|m| m.content == "turn 4"));
}

#[test]
fn split_refuses_when_too_short() {
    let cm = ContextManager::new(8192, 3);
    let mut messages = vec![Message::system("sys")];
    messages.extend(msg_turn("only turn", "done"));
    assert!(cm.split_for_compaction(&messages).is_none());
}

#[test]
fn prune_cut_respects_keep_turns() {
    let cm = ContextManager::new(32_768, 3);
    let mut messages = vec![Message::system("sys")];
    for i in 0..5 {
        messages.push(Message::user(&format!("turn {i}")));
        messages.push(Message::tool_result("id", "out"));
        messages.push(Message::assistant("done"));
    }
    let cut = cm.prune_cut(&messages).unwrap();
    assert_eq!(messages[cut].content, "turn 2");
    assert!(messages[..cut].iter().any(|m| m.role == Role::Tool));
}

#[test]
fn prune_cut_none_when_short_or_disabled() {
    let cm = ContextManager::new(32_768, 3);
    let mut messages = vec![Message::system("sys")];
    for i in 0..3 {
        messages.extend(msg_turn(&format!("turn {i}"), "done"));
    }
    assert!(cm.prune_cut(&messages).is_none(), "3 turns, keep 3 — none old");
    let off = ContextManager::new(32_768, 0);
    for i in 3..10 {
        messages.extend(msg_turn(&format!("turn {i}"), "done"));
    }
    assert!(off.prune_cut(&messages).is_none(), "0 disables pruning");
}

#[test]
fn keep_tool_turns_clamped_to_compaction_tail() {
    let cm = ContextManager::new(32_768, 1);
    let mut messages = vec![Message::system("sys")];
    for i in 0..3 {
        messages.extend(msg_turn(&format!("turn {i}"), "done"));
    }
    let cut = cm.prune_cut(&messages).unwrap();
    assert_eq!(messages[cut].content, "turn 1", "clamped to keep 2 turns");
}

#[test]
fn prune_stub_format() {
    let content = format!("$ cargo test --workspace\n{}", "line\n".repeat(399));
    let stub = ContextManager::prune_stub(Some("bash"), &content);
    assert!(stub.starts_with(PRUNE_STUB_PREFIX));
    assert!(stub.contains("bash"));
    assert!(stub.contains("400 lines"));
    assert!(stub.contains("cargo test --workspace"));
    assert!(stub.contains("session log"));
    assert!(!stub.contains('\n'), "stub must be one line");
    assert!(stub.len() < 250, "stub must be short: {}", stub.len());
}

#[test]
fn should_prune_gated_by_threshold() {
    let cm = ContextManager::new(8192, 3);
    let sized = |bytes: usize| {
        vec![Message::system("sys"), Message::user(&"x".repeat(bytes)), Message::assistant("ok")]
    };
    assert!(!cm.should_prune(&sized(1000), &[]));
    assert!(cm.should_prune(&sized(10_000), &[]));
    let off = ContextManager::new(8192, 0);
    assert!(!off.should_prune(&sized(10_000), &[]), "keep_tool_turns = 0 disables pruning");
}

#[test]
fn summary_transcript_passes_small_input_through() {
    let old = vec![Message::user("fix the bug"), Message::assistant("done")];
    let t = ContextManager::render_summary_transcript(&old);
    assert_eq!(t, "[User] fix the bug\n[Assistant] done\n");
}

#[test]
fn summary_transcript_caps_each_message() {
    let old = vec![Message::tool_result("1", &"y".repeat(10_000))];
    let t = ContextManager::render_summary_transcript(&old);
    assert!(t.len() < 2000, "{}", t.len());
    assert!(t.ends_with("…\n"));
}

#[test]
fn summary_transcript_drops_oldest_when_over_budget() {
    let old: Vec<Message> = (0..60).map(|i| Message::user(&format!("{i}:{}", "x".repeat(2000)))).collect();
    let t = ContextManager::render_summary_transcript(&old);
    assert!(t.len() <= TRANSCRIPT_MAX_BYTES + 40, "{}", t.len());
    assert!(t.starts_with("[earliest "), "{}", &t[..40]);
    assert!(t.contains("messages omitted"));
    assert!(!t.contains("[User] 0:"), "oldest dropped");
    assert!(t.contains("[User] 59:"), "newest kept");
}

#[test]
fn summary_transcript_utf8_safe() {
    let old = vec![Message::user(&"é".repeat(TRANSCRIPT_MSG_CAP))];
    let t = ContextManager::render_summary_transcript(&old);
    assert!(t.ends_with("…\n"));
}

#[test]
fn summarize_prompt_has_new_sections() {
    let p = ContextManager::summarize_prompt("goal", "transcript");
    assert!(p.contains("CONSTRAINTS & GOTCHAS"));
    assert!(p.contains("Do NOT reproduce tool output"));
    assert!(p.contains("verbatim"));
}

#[test]
fn usable_budget_reserves_output_room() {
    assert_eq!(ContextManager::new(8192, 3).usable_budget(), 4096);
    assert_eq!(ContextManager::new(1000, 3).usable_budget(), 0);
}

#[test]
fn rebuild_keeps_system_then_summary_then_tail() {
    let system = Message::system("sys");
    let kept = vec![Message::user("last"), Message::assistant("ok")];
    let out = ContextManager::rebuild(&system, "ship it", "we did things", &kept);
    assert_eq!(out.len(), 5);
    assert_eq!(out[0].content, "sys");
    assert_eq!(out[1].role, Role::User);
    assert!(out[1].content.contains("ship it"));
    assert!(out[1].content.contains("we did things"));
    assert_eq!(out[2].role, Role::Assistant);
    assert_eq!(out[4].content, "ok");
}
