use rocinante::model::{Effort, Message, Role, ToolCall, ToolSchema};
use rocinante::wire::{anthropic_body, gemini_body, ollama_body, openai_body, WireParams};
use serde_json::Value;

fn params() -> WireParams {
    WireParams {
        temperature: None,
        top_p: None,
        top_k: None,
        max_tokens: None,
        num_ctx: None,
        keep_alive: None,
        think: None,
        effort: Effort::High,
    }
}

/// A float sampling setting as the JSON number text the wire carries.
fn num(x: f32) -> Option<String> {
    Some(Value::from(x).to_string())
}

fn parse(s: &str) -> Value {
    serde_json::from_str(s).unwrap()
}

fn call(id: &str, name: &str, args: &str) -> ToolCall {
    ToolCall { id: id.to_string(), name: name.to_string(), arguments: args.to_string() }
}

fn schema(name: &str, description: &str, parameters: &str) -> ToolSchema {
    ToolSchema {
        name: name.to_string(),
        description: description.to_string(),
        parameters: parameters.to_string(),
    }
}

#[test]
fn body_lifts_system_and_maps_tool_turns() {
    let messages = vec![
        Message::system("be brief"),
        Message::user("weather?"),
        Message {
            role: Role::Assistant,
            content: "checking".to_string(),
            tool_calls: vec![
                call("toolu_1", "get_weather", r#"{"city":"Oslo"}"#),
                call("toolu_2", "now", "{}"),
            ],
            tool_call_id: None,
        },
        Message::tool_result("toolu_1", "5C"),
        Message::tool_result("toolu_2", "12:00"),
    ];
    let tools = vec![schema("get_weather", "weather", r#"{"type":"object"}"#)];
    let body = parse(&anthropic_body("sonnet-test", &messages, &tools, &params()));

    assert_eq!(body["system"], Value::from("be brief"));
    assert_eq!(body["max_tokens"], Value::from(8192));
    assert_eq!(body["stream"], Value::from(true));
    assert_eq!(body["tools"][0]["input_schema"], parse(r#"{"type":"object"}"#));

    let messages = body["messages"].as_array().unwrap();
    assert_eq!(messages.len(), 3);
    assert_eq!(messages[1]["content"][0]["type"], Value::from("text"));
    assert_eq!(messages[1]["content"][1]["type"], Value::from("tool_use"));
    assert_eq!(messages[1]["content"][1]["input"], parse(r#"{"city":"Oslo"}"#));
    let results = messages[2]["content"].as_array().unwrap();
    assert_eq!(results.len(), 2);
    assert_eq!(results[0]["type"], Value::from("tool_result"));
    assert_eq!(results[0]["tool_use_id"], Value::from("toolu_1"));
    assert_eq!(results[1]["tool_use_id"], Value::from("toolu_2"));
}

#[test]
fn body_respects_explicit_max_tokens() {
    let mut p = params();
    p.max_tokens = Some(100);
    p.temperature = num(0.5);
    let body = parse(&anthropic_body("sonnet-test", &vec![Message::user("hi")], &vec![], &p));
    assert_eq!(body["max_tokens"], Value::from(100));
    assert_eq!(body["temperature"], Value::from(0.5));
}

#[test]
fn body_carries_protocol_fields() {
    let mut p = params();
    p.temperature = num(0.5);
    p.top_p = num(0.9);
    p.max_tokens = Some(128);
    p.num_ctx = Some(4096);
    p.keep_alive = Some("10m".to_string());
    let tools = vec![schema("echo", "echoes", r#"{"type":"object"}"#)];
    let messages = vec![Message::system("be brief"), Message::user("hi")];
    let body = parse(&openai_body("gpt-test", &messages, &tools, &p));
    assert_eq!(body["stream"], Value::from(true));
    assert_eq!(body["stream_options"], parse(r#"{"include_usage":true}"#));
    assert_eq!(body["temperature"], Value::from(0.5));
    assert_eq!(body["top_p"], Value::from(0.9f32));
    assert_eq!(body["max_tokens"], Value::from(128));
    assert_eq!(body["messages"][0], parse(r#"{"role":"system","content":"be brief"}"#));
    assert_eq!(body["tools"][0]["function"]["name"], Value::from("echo"));
    assert!(body.get("num_ctx").is_none());
    assert!(body.get("keep_alive").is_none());
}

#[test]
fn wire_message_maps_tool_roles() {
    let assistant = Message {
        role: Role::Assistant,
        content: String::new(),
        tool_calls: vec![call("call_1", "echo", r#"{"s":"x"}"#)],
        tool_call_id: None,
    };
    let body = parse(&openai_body("m", &vec![assistant], &vec![], &params()));
    let v = &body["messages"][0];
    assert_eq!(v["content"], Value::Null);
    assert_eq!(v["tool_calls"][0]["id"], Value::from("call_1"));
    assert_eq!(v["tool_calls"][0]["function"]["arguments"], Value::from(r#"{"s":"x"}"#));

    let body = parse(&openai_body("m", &vec![Message::tool_result("call_1", "ok")], &vec![], &params()));
    let v = &body["messages"][0];
    assert_eq!(v["role"], Value::from("tool"));
    assert_eq!(v["tool_call_id"], Value::from("call_1"));
    assert_eq!(v["content"], Value::from("ok"));
}

#[test]
fn body_maps_roles_and_function_responses() {
    let messages = vec![
        Message::system("be brief"),
        Message::user("weather?"),
        Message {
            role: Role::Assistant,
            content: "checking".to_string(),
            tool_calls: vec![call("call_g_0", "get_weather", r#"{"city":"Oslo"}"#)],
            tool_call_id: None,
        },
        Message::tool_result("call_g_0", r#"{"temp": 5}"#),
        Message::tool_result("call_missing", "plain text"),
    ];
    let tools = vec![schema(
        "get_weather",
        "weather",
        r#"{"$schema":"http://json-schema.org/draft-07/schema#","type":"object","properties":{"city":{"$schema":"x","type":"string"}}}"#,
    )];
    let mut p = params();
    p.temperature = num(0.5);
    p.top_p = num(0.9);
    p.top_k = Some(40);
    p.max_tokens = Some(256);
    let body = parse(&gemini_body(&messages, &tools, &p));

    assert_eq!(body["systemInstruction"]["parts"][0]["text"], Value::from("be brief"));
    let contents = body["contents"].as_array().unwrap();
    assert_eq!(contents.len(), 3);
    assert_eq!(contents[0]["role"], Value::from("user"));
    assert_eq!(contents[1]["role"], Value::from("model"));
    assert_eq!(contents[1]["parts"][0]["text"], Value::from("checking"));
    assert_eq!(contents[1]["parts"][1]["functionCall"]["name"], Value::from("get_weather"));
    let responses = contents[2]["parts"].as_array().unwrap();
    assert_eq!(responses.len(), 2);
    assert_eq!(responses[0]["functionResponse"]["name"], Value::from("get_weather"));
    assert_eq!(responses[0]["functionResponse"]["response"], parse(r#"{"temp":5}"#));
    assert_eq!(responses[1]["functionResponse"]["name"], Value::from("unknown"));
    assert_eq!(responses[1]["functionResponse"]["response"], parse(r#"{"result":"plain text"}"#));

    let params = &body["tools"][0]["functionDeclarations"][0]["parameters"];
    assert!(params.get("$schema").is_none());
    assert!(params["properties"]["city"].get("$schema").is_none());
    assert_eq!(params["properties"]["city"]["type"], Value::from("string"));

    assert_eq!(body["generationConfig"]["temperature"], Value::from(0.5));
    assert_eq!(body["generationConfig"]["topP"], Value::from(0.9f32));
    assert_eq!(body["generationConfig"]["topK"], Value::from(40));
    assert_eq!(body["generationConfig"]["maxOutputTokens"], Value::from(256));
}

#[test]
fn ollama_body_carries_local_knobs_and_format() {
    let mut p = params();
    p.num_ctx = Some(4096);
    p.keep_alive = Some("10m".to_string());
    p.temperature = num(0.5);
    let body = parse(&ollama_body("qwen3:8b", &vec![Message::user("hi")], &vec![], &p, Some(r#"{"type":"object"}"#)));
    assert_eq!(body["model"], Value::from("qwen3:8b"));
    assert_eq!(body["stream"], Value::from(true));
    assert_eq!(body["options"]["num_ctx"], Value::from(4096));
    assert_eq!(body["options"]["temperature"], Value::from(0.5));
    assert_eq!(body["keep_alive"], Value::from("10m"));
    assert_eq!(body["format"], parse(r#"{"type":"object"}"#));
    assert_eq!(body["messages"][0]["role"], Value::from("user"));
    assert_eq!(body["messages"][0]["content"], Value::from("hi"));
}

#[test]
fn gemini_strips_schema_inside_arrays_and_keeps_scalars() {
    let tools = vec![schema(
        "t",
        "d",
        r#"{"anyOf":[{"$schema":"a","type":"string"},3],"$schema":"b"}"#,
    )];
    let body = parse(&gemini_body(&vec![Message::user("hi")], &tools, &params()));
    let p = &body["tools"][0]["functionDeclarations"][0]["parameters"];
    assert_eq!(*p, parse(r#"{"anyOf":[{"type":"string"},3]}"#));
    assert!(body.get("generationConfig").is_none());
    assert!(body.get("systemInstruction").is_none());
}
