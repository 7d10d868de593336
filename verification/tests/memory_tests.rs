use rocinante::memory::{
    brainbox_load, brainbox_sanitize, capture_prompt, extract_section, head_from,
    lessons_changed, lessons_load, lessons_sanitize, path_for, render_transcript, update_prompt, Brainbox, Lessons,
};
use rocinante::model::Message;

#[test]
fn sanitize_accepts_structured_output() {
    let out = brainbox_sanitize("# BRAINBOX\n## Goals\n- ship v1\n").unwrap();
    assert!(out.contains("## Goals"));
}

#[test]
fn sanitize_rejects_garbage() {
    assert!(brainbox_sanitize("").is_none());
    assert!(brainbox_sanitize("Sorry, I cannot help with that.").is_none());
}

#[test]
fn brainbox_sanitize_strips_code_fence() {
    let out = brainbox_sanitize("```markdown\n# BRAINBOX\n## Goals\n- x\n```").unwrap();
    assert!(out.starts_with("# BRAINBOX"));
    assert!(!out.contains("```"));
}

#[test]
fn sanitize_accepts_lessons_rejects_refusal() {
    assert!(lessons_sanitize("# LESSONS\n## Rules\n- always run fmt\n").is_some());
    assert!(lessons_sanitize("# LESSONS\n## Preferences\n- concise replies\n").is_some());
    assert!(lessons_sanitize("Sorry, I can't help with that.").is_none());
    assert!(lessons_sanitize("").is_none());
}

#[test]
fn lessons_sanitize_strips_code_fence() {
    let out = lessons_sanitize("```markdown\n# LESSONS\n## Rules\n- x\n```").unwrap();
    assert!(out.starts_with("# LESSONS"));
    assert!(!out.contains("```"));
}

#[test]
fn capture_prompt_is_conservative() {
    let p = capture_prompt("", "USER: hi");
    assert!(p.contains("output the CURRENT FILE UNCHANGED"));
    assert!(p.contains("Never invent preferences"));
    assert!(p.contains("## Preferences") && p.contains("## Rules"));
}

#[test]
fn load_head_extracts_goals_and_next_steps() {
    let content = "# BRAINBOX\n## Goals\n- ship the dashboard\n## State\n- half done\n## Decisions\n- use a grid\n## Gotchas\n- watch the umask\n## Next steps\n- write tests\n";
    let head = head_from(content).unwrap();
    assert!(head.contains("ship the dashboard"), "{head}");
    assert!(head.contains("write tests"), "{head}");
    assert!(!head.contains("use a grid"), "{head}");
    assert!(!head.contains("watch the umask"), "{head}");
}

#[test]
fn load_head_falls_back_without_headings() {
    assert_eq!(head_from("just some freeform memory notes").unwrap(), "just some freeform memory notes");
    assert_eq!(head_from("  \n"), None);
}

#[test]
fn load_caps_oversized_file() {
    let loaded = brainbox_load(&"x".repeat(10_000)).unwrap();
    assert!(loaded.len() < 5000);
    assert!(loaded.contains("truncated"));
    assert_eq!(lessons_load("- a rule\n").unwrap(), "- a rule\n");
    assert!(lessons_load(&"y".repeat(3000)).unwrap().ends_with("\n[LESSONS truncated]"));
}

#[test]
fn transcript_rendering_truncates_and_labels() {
    let messages = vec![
        Message::system("sys is skipped"),
        Message::user("fix the login bug"),
        Message::tool_result("1", &"y".repeat(2000)),
        Message::assistant("done"),
    ];
    let out = render_transcript(&messages);
    assert!(out.contains("[USER] fix the login bug"));
    assert!(out.contains("[…]"));
    assert!(!out.contains("sys is skipped"));
    assert!(out.len() < 1200);
}

#[test]
fn extract_section_stops_at_next_heading() {
    let c = "# B\n## Goals\n- a\n## State\n- b\n";
    assert_eq!(extract_section(c, "## Goals").unwrap(), "## Goals\n- a");
    assert_eq!(extract_section(c, "## State").unwrap(), "## State\n- b\n");
    assert_eq!(extract_section(c, "## Missing"), None);
}

#[test]
fn update_prompt_marks_a_missing_file() {
    let p = update_prompt("", "[USER] hi\n");
    assert!(p.contains("(no existing file — create it)"));
    assert!(p.contains("[USER] hi"));
    assert!(p.contains("## Next steps"));
}

#[test]
fn note_turn_spawns_update_at_cadence() {
    let mut bb = Brainbox::new("/proj", 1);
    assert_eq!(bb.path, "/proj/.rocinante/BRAINBOX.md");
    assert_eq!(path_for("/proj/"), "/proj/.rocinante/BRAINBOX.md");
    assert!(bb.note_turn(false));
    assert!(bb.note_turn(false));
}

#[test]
fn note_turn_below_cadence_does_nothing() {
    let mut bb = Brainbox::new("/proj", 5);
    for _ in 0..4 {
        assert!(!bb.note_turn(false));
    }
    assert!(!bb.note_turn(true), "a running refresh is never stacked");
    assert!(bb.note_turn(false));
    assert_eq!(bb.turns_since_update, 0);
    bb.clear();
    assert_eq!(bb.turns_since_update, 0);
}

#[test]
fn note_turn_is_noop_when_periodic_disabled() {
    let mut l = Lessons::new(Some("/home/u/.rocinante/LESSONS.md"), 0);
    for _ in 0..10 {
        assert!(!l.note_turn(false));
    }
    assert_eq!(l.turn_count, 10);
    assert!(l.final_pass_due());
}

#[test]
fn finalize_runs_once_then_skips_when_clean() {
    let mut l = Lessons::new(None, 2);
    assert_eq!(l.path, "LESSONS.md");
    assert!(!l.note_turn(false));
    assert!(l.note_turn(false));
    l.capture_done(2);
    assert!(!l.final_pass_due());
    assert!(!l.note_turn(false));
    assert!(l.final_pass_due());
    l.capture_done(1);
    assert_eq!(l.completed_turn, 2);
    assert!(lessons_changed("a\n", "b"));
    assert!(!lessons_changed("a\n", " a"));
}

#[test]
fn heading_less_brainbox_falls_back_to_800_bytes() {
    let content = "x".repeat(1000);
    assert_eq!(head_from(&content).unwrap(), "x".repeat(800));
    let content = format!("{}é", "y".repeat(799));
    assert_eq!(head_from(&content).unwrap(), "y".repeat(799));
}
