use rocinante::agent::PermissionDecision;
use rocinante::config::{AgentProfileConfig, ProviderConfig};
use rocinante::model::{ChatDelta, StopReason, Usage};
use rocinante::permissions::Mode;
use rocinante::repl::{
    ask_prompt, model_menu, parse_command, permission_answer, pick_from_menu, pilot_text, plan_choice,
    provider_flag, resume_notices, startup_mode, LoopCommand, PickOutcome, PrintEvent, Printer, ProviderFlag,
    ReplCommand, MID_TURN_NOTE, PILOT_CAP,
};
use rocinante::session::ResumeInfo;
use rocinante::stream::{take_line, OllamaAssembler, OllamaCall, OllamaChunk, OllamaMessage};
use rocinante::task::{forward, needs_nudge, task_report, Forward, SubEvent, TaskTool, MAX_DEPTH, NUDGE};

fn profile(description: &str, tools: &[&str], prompt: Option<&str>) -> AgentProfileConfig {
    AgentProfileConfig {
        description: description.to_string(),
        model: "main".to_string(),
        tools: tools.iter().map(|t| t.to_string()).collect(),
        max_turns: 7,
        system_prompt: prompt.map(|p| p.to_string()),
    }
}

fn crew() -> TaskTool {
    TaskTool {
        agents: vec![
            ("naomi".to_string(), profile("Explorer", &["read", "grep"], None)),
            ("amos".to_string(), profile("Fixer", &["read", "bash"], Some("You are Amos."))),
        ],
    }
}

// ---------------------------------------------------------------- task

#[test]
fn task_check_refuses_depth_and_unknown_agents() {
    let t = crew();
    assert_eq!(t.check(0, "amos"), Ok(1));
    assert_eq!(
        t.check(MAX_DEPTH, "amos"),
        Err("subagent nesting limit reached; do it yourself".to_string())
    );
    assert_eq!(t.check(0, "holden"), Err("unknown agent `holden`. Available: naomi, amos".to_string()));
}

#[test]
fn task_plan_sets_gate_writes_prompt_and_depth() {
    let t = crew();
    let p = t.plan(0, "naomi", 0, true, "qwen3:8b", "glm:cloud");
    assert!(p.needs_gate);
    assert!(!p.writes);
    assert_eq!(
        p.system_prompt,
        "You are the `naomi` subagent: Explorer. Complete the task and report your findings as plain text. Your final message is returned to the main agent."
    );
    assert_eq!(p.max_iterations, 7);
    assert_eq!(p.depth, 1);

    let p = t.plan(1, "amos", 1, true, "same", "same");
    assert!(!p.needs_gate);
    assert!(p.writes);
    assert_eq!(p.system_prompt, "You are Amos.");
    assert_eq!(p.depth, 2);
    assert_eq!(t.name(), "task");
}

#[test]
fn task_report_and_nudge() {
    assert!(needs_nudge(&Ok("  \n".to_string())));
    assert!(!needs_nudge(&Ok("found it".to_string())));
    assert!(!needs_nudge(&Err("boom".to_string())));
    assert!(!NUDGE.is_empty());

    let r = task_report(&Ok("found it".to_string()));
    assert!(!r.is_error);
    assert_eq!(r.content, "found it");
    let r = task_report(&Ok(" ".to_string()));
    assert!(r.is_error);
    assert_eq!(r.content, "subagent finished without a report");
    let r = task_report(&Err("timeout".to_string()));
    assert!(r.is_error);
    assert_eq!(r.content, "subagent failed: timeout");
}

#[test]
fn forward_tags_asks_and_adds_usage() {
    let mut total = Usage { prompt_tokens: 10, completion_tokens: 1 };
    match forward("task[naomi]", &SubEvent::ToolCallStarted { summary: "read a.rs".to_string() }, &mut total) {
        Forward::Progress(p) => assert_eq!(p, "→ read a.rs"),
        _ => panic!("expected progress"),
    }
    match forward(
        "task[naomi]",
        &SubEvent::ToolFinished { output_preview: "line one\nline two".to_string(), is_error: true },
        &mut total,
    ) {
        Forward::Progress(p) => assert_eq!(p, "✗ line one"),
        _ => panic!("expected progress"),
    }
    match forward("task[naomi]", &SubEvent::PermissionRequested { summary: "bash: ls".to_string() }, &mut total) {
        Forward::Ask(s) => assert_eq!(s, "[task[naomi]] bash: ls"),
        _ => panic!("expected ask"),
    }
    let u = Usage { prompt_tokens: 5, completion_tokens: u64::MAX };
    assert!(matches!(forward("t", &SubEvent::Usage(u), &mut total), Forward::Nothing));
    assert_eq!(total, Usage { prompt_tokens: 15, completion_tokens: 0 });
    match forward("t", &SubEvent::Error { message: "oops".to_string() }, &mut total) {
        Forward::Progress(p) => assert_eq!(p, "! oops"),
        _ => panic!("expected progress"),
    }
    assert!(matches!(forward("t", &SubEvent::Other, &mut total), Forward::Nothing));
}

// ---------------------------------------------------------------- repl

#[test]
fn parse_command_covers_the_slash_commands() {
    assert_eq!(parse_command("   "), ReplCommand::Empty);
    assert_eq!(parse_command("/quit"), ReplCommand::Quit);
    assert_eq!(parse_command(" /exit "), ReplCommand::Quit);
    assert_eq!(parse_command("/mode auto"), ReplCommand::Mode(Some(Mode::Auto)));
    assert_eq!(parse_command("/mode"), ReplCommand::Mode(None));
    assert_eq!(parse_command("/mode fast"), ReplCommand::UnknownMode("fast".to_string()));
    assert_eq!(parse_command("/model  qwen3:8b "), ReplCommand::Model("qwen3:8b".to_string()));
    assert_eq!(parse_command("/loop"), ReplCommand::Loop(LoopCommand::Show));
    assert_eq!(parse_command("/loop stop"), ReplCommand::Loop(LoopCommand::Stop));
    assert_eq!(parse_command("/loop 5m"), ReplCommand::Loop(LoopCommand::Usage));
    assert_eq!(
        parse_command("/loop 5m check the build"),
        ReplCommand::Loop(LoopCommand::Arm { interval: "5m".to_string(), prompt: "check the build".to_string() })
    );
    assert_eq!(parse_command("/clear"), ReplCommand::Clear { all: false });
    assert_eq!(parse_command("/clear --all"), ReplCommand::Clear { all: true });
    assert_eq!(parse_command("/clear x"), ReplCommand::ClearUsage);
    assert_eq!(
        parse_command("/uninstall confirm --purge"),
        ReplCommand::Uninstall { confirmed: true, purge: true }
    );
    assert_eq!(parse_command("/uninstall"), ReplCommand::Uninstall { confirmed: false, purge: false });
    assert_eq!(parse_command("/remember"), ReplCommand::RememberUsage);
    assert_eq!(parse_command("/remember use tabs"), ReplCommand::Remember("use tabs".to_string()));
    assert_eq!(parse_command("/think on"), ReplCommand::Think(Some(true)));
    assert_eq!(parse_command("/think maybe"), ReplCommand::UnknownThink("maybe".to_string()));
    assert_eq!(parse_command("/effort low"), ReplCommand::Effort("low".to_string()));
    assert_eq!(parse_command("/submodel"), ReplCommand::Submodel(String::new()));
    assert_eq!(parse_command("/trust"), ReplCommand::Trust);
    assert_eq!(parse_command(" fix the bug "), ReplCommand::Submit("fix the bug".to_string()));
}

#[test]
fn prompt_answers() {
    assert_eq!(plan_choice(Some(" e ")), Some(Mode::Normal));
    assert_eq!(plan_choice(Some("A")), Some(Mode::Auto));
    assert_eq!(plan_choice(Some("x")), None);
    assert_eq!(plan_choice(None), None);
    assert_eq!(permission_answer(" YES\n"), PermissionDecision::Allow);
    assert_eq!(permission_answer("a"), PermissionDecision::AlwaysAllow);
    assert_eq!(permission_answer("Always"), PermissionDecision::AlwaysAllow);
    assert_eq!(permission_answer("nope"), PermissionDecision::Deny);
    assert_eq!(permission_answer(""), PermissionDecision::Deny);
}

#[test]
fn model_menu_picks_by_number_or_name() {
    let models = vec!["qwen3:8b".to_string(), "glm:cloud".to_string()];
    assert_eq!(pick_from_menu(&models, "  "), PickOutcome::Again);
    assert_eq!(pick_from_menu(&models, "2"), PickOutcome::Chosen("glm:cloud".to_string()));
    assert_eq!(pick_from_menu(&models, "3"), PickOutcome::NoOption(3));
    assert_eq!(pick_from_menu(&models, "0"), PickOutcome::NoOption(0));
    assert_eq!(pick_from_menu(&models, " llama3 "), PickOutcome::Chosen("llama3".to_string()));

    let menu = model_menu(&models, &vec!["openai".to_string()]);
    assert_eq!(
        menu,
        "\x1b[1mSelect a model\x1b[0m (remembered for next time):\n   1. qwen3:8b\n   2. glm:cloud\n  or type a full model for a configured API provider:\n      openai/<model>\n  or type any provider/model or tag.\n"
    );
    let menu = model_menu(&vec![], &vec![]);
    assert_eq!(
        menu,
        "\x1b[1mSelect a model\x1b[0m (remembered for next time):\n  or type any provider/model or tag.\n"
    );
}

#[test]
fn printer_closes_open_text_before_other_output() {
    let mut p = Printer::new();
    let (out, err) = p.render(&PrintEvent::AssistantText("hello".to_string()));
    assert_eq!(out, "hello");
    assert_eq!(err, "");
    assert!(p.mid_text);
    let (out, _) = p.render(&PrintEvent::ToolCallStarted("read a.rs".to_string()));
    assert_eq!(out, "\n\x1b[36m⏺ read a.rs\x1b[0m\n");
    assert!(!p.mid_text);
    let (out, _) = p.render(&PrintEvent::ToolFinished { output_preview: String::new(), is_error: false });
    assert_eq!(out, "\x1b[32m  ✓ (no output)\x1b[0m\n");
    let (out, _) = p.render(&PrintEvent::ContextCompacted { before_tokens: 9000, after_tokens: 1200 });
    assert_eq!(out, "\x1b[90m[context compacted: ~9000 → ~1200 tokens]\x1b[0m\n");
    let (out, err) = p.render(&PrintEvent::Error("bad".to_string()));
    assert_eq!(out, "");
    assert_eq!(err, "\x1b[31m! bad\x1b[0m\n");
    let (out, _) = p.render(&PrintEvent::ToolProgress { call_id: "call_1".to_string(), chunk: "x".to_string() });
    assert_eq!(out, "");
    let (out, _) = p.render(&PrintEvent::ToolProgress { call_id: "task[a]".to_string(), chunk: "x".to_string() });
    assert_eq!(out, "\x1b[90m    task[a] x\x1b[0m\n");
}

#[test]
fn startup_mode_and_ask_prompt() {
    assert_eq!(startup_mode(None, Mode::Plan), Ok(Mode::Plan));
    assert_eq!(startup_mode(Some("auto"), Mode::Normal), Ok(Mode::Auto));
    assert_eq!(
        startup_mode(Some("yolo"), Mode::Normal),
        Err("unknown mode `yolo` (normal | auto | plan)".to_string())
    );
    assert_eq!(ask_prompt(&vec!["fix".to_string(), "it".to_string()]), Ok("fix it".to_string()));
    assert_eq!(ask_prompt(&vec![]), Err("usage: rocinante ask <prompt>".to_string()));
}

#[test]
fn pilot_text_skips_blank_and_caps_long() {
    assert_eq!(pilot_text(" \n\t"), None);
    assert_eq!(pilot_text("# Pilot\nbe careful"), Some("# Pilot\nbe careful".to_string()));
    let long = "é".repeat(PILOT_CAP);
    let cut = pilot_text(&long).unwrap();
    assert!(cut.ends_with("\n[PILOT.md truncated]"));
    assert_eq!(cut.len() - "\n[PILOT.md truncated]".len(), PILOT_CAP);
}

#[test]
fn provider_flag_names_only_configured_providers() {
    let providers = vec![
        ("ollama".to_string(), ProviderConfig::Ollama { base_url: "http://localhost:11434".to_string() }),
        (
            "openai".to_string(),
            ProviderConfig::Openai {
                base_url: "https://api.openai.com/v1".to_string(),
                api_key_env: "OPENAI_API_KEY".to_string(),
            },
        ),
    ];
    assert_eq!(provider_flag("ollama", &providers), ProviderFlag::FirstOllamaModel);
    assert_eq!(
        provider_flag("openai", &providers),
        ProviderFlag::Refused("cloud providers can't be enumerated — use `--model openai/<model-name>`".to_string())
    );
    assert_eq!(provider_flag("qwen3:8b", &providers), ProviderFlag::NotProvider);
}

#[test]
fn resume_notices_mention_mid_turn() {
    let info = ResumeInfo { session_id: "abc".to_string(), message_count: 12, mid_turn: true };
    let n = resume_notices(&info);
    assert_eq!(n, vec!["resuming session abc (12 messages)".to_string(), MID_TURN_NOTE.to_string()]);
    let info = ResumeInfo { session_id: "abc".to_string(), message_count: 0, mid_turn: false };
    assert_eq!(resume_notices(&info).len(), 1);
}

// ---------------------------------------------------------------- ollama stream

#[test]
fn take_line_splits_ndjson() {
    let mut buf = b"{\"a\":1}\n{\"b\"".to_vec();
    assert_eq!(take_line(&mut buf), Some(b"{\"a\":1}".to_vec()));
    assert_eq!(buf, b"{\"b\"".to_vec());
    assert_eq!(take_line(&mut buf), None);
    assert_eq!(buf, b"{\"b\"".to_vec());
}

fn chunk(content: &str, calls: Vec<OllamaCall>, done: bool) -> OllamaChunk {
    OllamaChunk {
        message: Some(OllamaMessage { content: content.to_string(), thinking: None, tool_calls: calls }),
        done,
        done_reason: if done { Some("stop".to_string()) } else { None },
        prompt_eval_count: if done { Some(30) } else { None },
        eval_count: if done { Some(4) } else { None },
        error: None,
    }
}

#[test]
fn ollama_assembler_numbers_calls_and_stops_for_tools() {
    let mut a = OllamaAssembler::new();
    let out = a.apply(chunk("Hi", vec![], false), "call").unwrap();
    assert!(matches!(&out[..], [ChatDelta::Text(t)] if t == "Hi"));
    let calls = vec![
        OllamaCall { name: "read".to_string(), arguments: "{\"path\":\"a\"}".to_string() },
        OllamaCall { name: "grep".to_string(), arguments: "{}".to_string() },
    ];
    let out = a.apply(chunk("", calls, false), "call").unwrap();
    match &out[..] {
        [ChatDelta::ToolCall(c0), ChatDelta::ToolCall(c1)] => {
            assert_eq!(c0.id, "call_0");
            assert_eq!(c0.name, "read");
            assert_eq!(c1.id, "call_1");
        }
        other => panic!("unexpected {other:?}"),
    }
    let out = a.apply(chunk("", vec![], true), "call").unwrap();
    match &out[..] {
        [ChatDelta::Usage(u), ChatDelta::Done(r)] => {
            assert_eq!(*u, Usage { prompt_tokens: 30, completion_tokens: 4 });
            assert_eq!(*r, StopReason::ToolUse);
        }
        other => panic!("unexpected {other:?}"),
    }
}

#[test]
fn ollama_error_line_fails_the_stream() {
    let mut a = OllamaAssembler::new();
    let mut c = chunk("", vec![], false);
    c.error = Some("model not found".to_string());
    let e = a.apply(c, "call").unwrap_err();
    assert_eq!(e.status, 200);
    assert_eq!(e.message, "model not found");
    assert_eq!(a.call_seq, 0);
}
