use rocinante::model::{ChatDelta, StopReason, Usage};
use rocinante::stream::{
    finish_arguments, AnthropicBlock, AnthropicDelta, AnthropicEvent, ChunkAssembler, EventAssembler, FunctionDelta,
    GeminiAssembler, GeminiCall, GeminiCandidate, GeminiChunk, GeminiPart, OpenAiChoice, OpenAiChunk, ToolCallFragment,
};

fn json(s: &str) -> serde_json::Value {
    serde_json::from_str(s).unwrap()
}

fn frag(index: usize, id: Option<&str>, name: Option<&str>, args: Option<&str>) -> ToolCallFragment {
    ToolCallFragment {
        index,
        id: id.map(String::from),
        function: Some(FunctionDelta { name: name.map(String::from), arguments: args.map(String::from) }),
    }
}

fn choice(content: Option<&str>, frags: Vec<ToolCallFragment>, finish: Option<&str>) -> OpenAiChunk {
    OpenAiChunk {
        usage: None,
        choices: vec![OpenAiChoice { content: content.map(String::from), tool_calls: frags, finish_reason: finish.map(String::from) }],
    }
}

#[test]
fn assembles_fragmented_tool_calls() {
    let mut assembler = ChunkAssembler::new();
    let out = assembler.apply(choice(Some("Hello"), vec![], None), "call_0");
    assert!(matches!(&out[..], [ChatDelta::Text(t)] if t == "Hello"));
    let empty = assembler.apply(choice(None, vec![frag(0, Some("call_a"), Some("get_weather"), Some(""))], None), "call_0");
    assert!(empty.is_empty());
    assert!(assembler
        .apply(
            choice(None, vec![frag(0, None, None, Some("{\"city\":")), frag(1, Some("call_b"), Some("now"), Some("{}"))], None),
            "call_0"
        )
        .is_empty());
    assert!(assembler.apply(choice(None, vec![frag(0, None, None, Some("\"Oslo\"}"))], None), "call_0").is_empty());
    let out = assembler.apply(choice(None, vec![], Some("tool_calls")), "call_0");
    assert_eq!(out.len(), 2);
    match &out[0] {
        ChatDelta::ToolCall(c) => {
            assert_eq!(c.id, "call_a");
            assert_eq!(c.name, "get_weather");
            assert_eq!(json(&c.arguments), json(r#"{"city":"Oslo"}"#));
        }
        other => panic!("expected tool call, got {other:?}"),
    }
    match &out[1] {
        ChatDelta::ToolCall(c) => {
            assert_eq!(c.id, "call_b");
            assert_eq!(c.name, "now");
            assert_eq!(json(&c.arguments), json("{}"));
        }
        other => panic!("expected tool call, got {other:?}"),
    }
    assert_eq!(assembler.finish, Some(StopReason::ToolUse));
    let out = assembler.apply(OpenAiChunk { usage: Some(Usage { prompt_tokens: 42, completion_tokens: 7 }), choices: vec![] }, "call_0");
    assert!(matches!(&out[..], [ChatDelta::Usage(u)] if u.prompt_tokens == 42 && u.completion_tokens == 7));
}

#[test]
fn openai_compat_maps_finish_reasons() {
    let mut assembler = ChunkAssembler::new();
    assembler.apply(choice(None, vec![], Some("stop")), "b");
    assert_eq!(assembler.finish, Some(StopReason::EndTurn));
    let mut assembler = ChunkAssembler::new();
    assembler.apply(choice(None, vec![], Some("length")), "b");
    assert_eq!(assembler.finish, Some(StopReason::MaxTokens));
}

#[test]
fn generates_fallback_call_ids() {
    let mut assembler = ChunkAssembler::new();
    assembler.apply(choice(None, vec![frag(0, None, Some("f"), Some("{}"))], None), "call_7");
    let out = assembler.apply(choice(None, vec![], Some("tool_calls")), "call_7");
    match &out[0] {
        ChatDelta::ToolCall(c) => assert_eq!(c.id, "call_7_0"),
        other => panic!("expected tool call, got {other:?}"),
    }
}

#[test]
fn unparseable_arguments_become_a_string() {
    assert_eq!(finish_arguments("  "), "{}");
    assert_eq!(finish_arguments("{\"a\": 1}"), "{\"a\":1}");
    assert_eq!(finish_arguments("{oops"), "\"{oops\"");
}

fn part_text(t: &str) -> GeminiPart {
    GeminiPart { text: Some(t.into()), function_call: None }
}

fn part_call(name: &str, args: &str) -> GeminiPart {
    GeminiPart { text: None, function_call: Some(GeminiCall { name: name.into(), args: args.into() }) }
}

fn gchunk(parts: Option<Vec<GeminiPart>>, finish: Option<&str>, usage: Option<Usage>) -> GeminiChunk {
    GeminiChunk { candidates: vec![GeminiCandidate { parts, finish_reason: finish.map(String::from) }], usage }
}

#[test]
fn assembles_text_and_function_calls() {
    let mut assembler = GeminiAssembler::new(0);
    let out = assembler.apply(gchunk(Some(vec![part_text("Let me check.")]), None, None));
    assert!(matches!(&out[..], [ChatDelta::Text(t)] if t == "Let me check."));
    let out = assembler.apply(gchunk(
        Some(vec![part_call("get_weather", r#"{"city":"Oslo"}"#)]),
        Some("STOP"),
        Some(Usage { prompt_tokens: 9, completion_tokens: 4 }),
    ));
    match &out[..] {
        [ChatDelta::ToolCall(c)] => {
            assert_eq!(c.id, "call_g_0");
            assert_eq!(c.name, "get_weather");
            assert_eq!(json(&c.arguments), json(r#"{"city":"Oslo"}"#));
        }
        other => panic!("expected tool call, got {other:?}"),
    }
    assert_eq!(assembler.finish, Some(StopReason::ToolUse));
    assert_eq!(assembler.usage.prompt_tokens, 9);
    assert_eq!(assembler.usage.completion_tokens, 4);
}

#[test]
fn gemini_maps_finish_reasons() {
    let mut assembler = GeminiAssembler::new(0);
    assembler.apply(gchunk(None, Some("STOP"), None));
    assert_eq!(assembler.finish, Some(StopReason::EndTurn));
    let mut assembler = GeminiAssembler::new(0);
    assembler.apply(gchunk(None, Some("MAX_TOKENS"), None));
    assert_eq!(assembler.finish, Some(StopReason::MaxTokens));
}

#[test]
fn generated_call_ids_increment() {
    let mut assembler = GeminiAssembler::new(0);
    let out = assembler.apply(gchunk(Some(vec![part_call("a", "{}"), part_call("b", "{}")]), None, None));
    match &out[..] {
        [ChatDelta::ToolCall(a), ChatDelta::ToolCall(b)] => {
            assert_eq!(a.id, "call_g_0");
            assert_eq!(b.id, "call_g_1");
        }
        other => panic!("expected two tool calls, got {other:?}"),
    }
    assert_eq!(assembler.next_call_id, 2);
}

#[test]
fn assembles_streamed_tool_use() {
    let mut assembler = EventAssembler::new();
    assert!(assembler.apply(AnthropicEvent::MessageStart { input_tokens: 25 }).unwrap().is_empty());
    assert!(assembler
        .apply(AnthropicEvent::ContentBlockStart { index: 0, block: AnthropicBlock::Text(String::new()) })
        .unwrap()
        .is_empty());
    let out = assembler.apply(AnthropicEvent::ContentBlockDelta { index: 0, delta: AnthropicDelta::Text("Hi".into()) }).unwrap();
    assert!(matches!(&out[..], [ChatDelta::Text(t)] if t == "Hi"));
    assert!(assembler.apply(AnthropicEvent::ContentBlockStop { index: 0 }).unwrap().is_empty());
    assert!(assembler
        .apply(AnthropicEvent::ContentBlockStart {
            index: 1,
            block: AnthropicBlock::ToolUse { id: "toolu_1".into(), name: "get_weather".into() }
        })
        .unwrap()
        .is_empty());
    assert!(assembler
        .apply(AnthropicEvent::ContentBlockDelta { index: 1, delta: AnthropicDelta::InputJson("{\"city\"".into()) })
        .unwrap()
        .is_empty());
    assert!(assembler
        .apply(AnthropicEvent::ContentBlockDelta { index: 1, delta: AnthropicDelta::InputJson(":\"Oslo\"}".into()) })
        .unwrap()
        .is_empty());
    let out = assembler.apply(AnthropicEvent::ContentBlockStop { index: 1 }).unwrap();
    match &out[..] {
        [ChatDelta::ToolCall(c)] => {
            assert_eq!(c.id, "toolu_1");
            assert_eq!(c.name, "get_weather");
            assert_eq!(json(&c.arguments), json(r#"{"city":"Oslo"}"#));
        }
        other => panic!("expected tool call, got {other:?}"),
    }
    let out = assembler
        .apply(AnthropicEvent::MessageDelta { stop_reason: Some("tool_use".into()), output_tokens: Some(12) })
        .unwrap();
    assert!(matches!(&out[..], [ChatDelta::Usage(u)] if u.prompt_tokens == 25 && u.completion_tokens == 12));
    let out = assembler.apply(AnthropicEvent::MessageStop).unwrap();
    assert!(matches!(&out[..], [ChatDelta::Done(StopReason::ToolUse)]));
}

#[test]
fn maps_stop_reasons_and_errors() {
    let mut assembler = EventAssembler::new();
    assembler.apply(AnthropicEvent::MessageDelta { stop_reason: Some("max_tokens".into()), output_tokens: Some(1) }).unwrap();
    let out = assembler.apply(AnthropicEvent::MessageStop).unwrap();
    assert!(matches!(&out[..], [ChatDelta::Done(StopReason::MaxTokens)]));
    assert!(assembler.apply(AnthropicEvent::Ping).unwrap().is_empty());
    let err = assembler.apply(AnthropicEvent::Error { kind: "overloaded_error".into(), message: "busy".into() }).err().unwrap();
    assert_eq!(err.status, 200);
    assert!(err.message.contains("busy"));
    assert_eq!(err.message, "overloaded_error: busy");
}
