use piso::drivers::{
    AzureOpenAiDriver, BedrockDriver, CloudflareDriver, DriverId, GeminiDriver, OpenAiResponsesDriver,
    ProviderRegistry, VertexDriver, VERTEX_DEFAULT_LOCATION,
};
use piso::json::{parse_u64, JsonValue};
use piso::llm_stream::{
    accumulate_tool_calls, bedrock_line, data_payload, parse_gemini_chunk, parse_openai_events, plain_openai_payload,
    take_tool_calls, vertex_payload, AnthropicStream, GeminiStream, OpenAiStream, StreamEvent,
};
use piso::message::{
    AssistantMessage, CompletionRequest, ContentBlock, Message, StopReason, ThinkingContent, ToolDefinition, UserMessage,
};
use piso::requests::{build_anthropic_request, build_gemini_request, build_openai_request};
use piso::transform::{to_anthropic_messages, to_gemini_contents, to_openai_messages};

fn lib_json(v: &serde_json::Value) -> JsonValue {
    match v {
        serde_json::Value::Null => JsonValue::Null,
        serde_json::Value::Bool(b) => JsonValue::Bool(*b),
        serde_json::Value::Number(n) => JsonValue::Number(n.to_string()),
        serde_json::Value::String(s) => JsonValue::Str(s.clone()),
        serde_json::Value::Array(a) => JsonValue::Array(a.iter().map(lib_json).collect()),
        serde_json::Value::Object(m) => JsonValue::Object(m.iter().map(|(k, v)| (k.clone(), lib_json(v))).collect()),
    }
}

fn serde_of(v: &JsonValue) -> serde_json::Value {
    match v {
        JsonValue::Null => serde_json::Value::Null,
        JsonValue::Bool(b) => serde_json::Value::Bool(*b),
        JsonValue::Number(n) => serde_json::from_str(n).unwrap(),
        JsonValue::Str(s) => serde_json::Value::String(s.clone()),
        JsonValue::Array(a) => serde_json::Value::Array(a.iter().map(serde_of).collect()),
        JsonValue::Object(m) => {
            let mut map = serde_json::Map::new();
            for (k, v) in m {
                map.insert(k.clone(), serde_of(v));
            }
            serde_json::Value::Object(map)
        }
    }
}

fn parse(text: &str) -> JsonValue {
    lib_json(&serde_json::from_str(text).unwrap())
}

fn all(vs: &[JsonValue]) -> Vec<serde_json::Value> {
    vs.iter().map(serde_of).collect()
}

fn text_user(text: &str) -> Message {
    Message::User(UserMessage { role: "user".to_string(), content: vec![ContentBlock::text(text)] })
}

fn assistant(content: Vec<ContentBlock>) -> Message {
    Message::Assistant(AssistantMessage {
        role: "assistant".to_string(),
        content,
        model: None,
        stop_reason: None,
        usage: None,
        timestamp: None,
    })
}

fn text_assistant(text: &str) -> Message {
    assistant(vec![ContentBlock::text(text)])
}

fn tool_call_assistant(id: &str, name: &str) -> Message {
    assistant(vec![ContentBlock::tool_call(id, name, parse("{}"))])
}

fn tool_result_user(id: &str, output: &str) -> Message {
    Message::User(UserMessage { role: "user".to_string(), content: vec![ContentBlock::tool_result(id, output, false)] })
}

fn thinking_assistant(thinking: &str, text: &str) -> Message {
    assistant(vec![
        ContentBlock::Thinking(ThinkingContent { thinking: thinking.to_string(), signature: None }),
        ContentBlock::text(text),
    ])
}

fn bash_tool() -> ToolDefinition {
    ToolDefinition {
        name: "bash".to_string(),
        description: "Execute a shell command".to_string(),
        parameters: parse(r#"{"type": "object", "properties": {"command": {"type": "string"}}, "required": ["command"]}"#),
        requires_approval: false,
    }
}

fn request(model: &str, system: Option<&str>, messages: Vec<Message>, tools: Vec<ToolDefinition>) -> CompletionRequest {
    CompletionRequest {
        model: model.to_string(),
        system_prompt: system.map(|s| s.to_string()),
        messages,
        tools,
        thinking_enabled: false,
        thinking_budget: None,
        max_tokens: 4096,
        api_key: String::new(),
        base_url: None,
    }
}

// ── Anthropic ──────────────────────────────────────────────

#[test]
fn anthropic_simple_conversation() {
    let msgs = vec![text_user("hello"), text_assistant("hi there")];
    let result = all(&to_anthropic_messages(&msgs));
    assert_eq!(result.len(), 2);
    assert_eq!(result[0]["role"], "user");
    assert_eq!(result[0]["content"][0]["type"], "text");
    assert_eq!(result[0]["content"][0]["text"], "hello");
    assert_eq!(result[1]["role"], "assistant");
}

#[test]
fn anthropic_tool_result_in_user_content() {
    let msgs = vec![tool_call_assistant("tc1", "bash"), tool_result_user("tc1", "output")];
    let result = all(&to_anthropic_messages(&msgs));
    assert_eq!(result[1]["role"], "user");
    assert_eq!(result[1]["content"][0]["type"], "tool_result");
    assert_eq!(result[1]["content"][0]["tool_use_id"], "tc1");
}

#[test]
fn anthropic_thinking_block() {
    let msgs = vec![thinking_assistant("hmm", "answer")];
    let result = all(&to_anthropic_messages(&msgs));
    assert_eq!(result[0]["content"][0]["type"], "thinking");
    assert_eq!(result[0]["content"][1]["type"], "text");
}

// ── OpenAI ────────────────────────────────────────────────

#[test]
fn openai_simple_conversation() {
    let msgs = vec![text_user("hello"), text_assistant("hi")];
    let result = all(&to_openai_messages(&msgs));
    assert_eq!(result.len(), 2);
    assert_eq!(result[0]["role"], "user");
    assert_eq!(result[1]["role"], "assistant");
}

#[test]
fn openai_tool_result_as_separate_message() {
    let msgs = vec![tool_call_assistant("tc1", "bash"), tool_result_user("tc1", "output")];
    let result = all(&to_openai_messages(&msgs));
    assert_eq!(result[1]["role"], "tool");
    assert_eq!(result[1]["tool_call_id"], "tc1");
}

#[test]
fn openai_tool_calls_in_assistant() {
    let msgs = vec![tool_call_assistant("tc1", "read")];
    let result = all(&to_openai_messages(&msgs));
    assert_eq!(result[0]["role"], "assistant");
    assert!(result[0]["tool_calls"].is_array());
    assert_eq!(result[0]["tool_calls"][0]["function"]["name"], "read");
}

#[test]
fn openai_user_texts_flush_around_tool_results() {
    let msgs = vec![Message::User(UserMessage {
        role: "user".to_string(),
        content: vec![
            ContentBlock::text("a"),
            ContentBlock::text("b"),
            ContentBlock::tool_result("t1", "out", false),
            ContentBlock::text("c"),
        ],
    })];
    let result = all(&to_openai_messages(&msgs));
    assert_eq!(result.len(), 3);
    assert_eq!(result[0]["content"], serde_json::Value::Array(vec!["a".into(), "b".into()]));
    assert_eq!(result[1]["role"], "tool");
    assert_eq!(result[2]["content"], "c");
}

// ── Gemini ────────────────────────────────────────────────

#[test]
fn gemini_simple_conversation() {
    let msgs = vec![text_user("hello"), text_assistant("hi")];
    let result = all(&to_gemini_contents(&msgs));
    assert_eq!(result.len(), 2);
    assert_eq!(result[0]["role"], "user");
    assert_eq!(result[1]["role"], "model");
}

#[test]
fn gemini_tool_calls() {
    let msgs = vec![tool_call_assistant("tc1", "bash"), tool_result_user("tc1", "output")];
    let result = all(&to_gemini_contents(&msgs));
    assert_eq!(result[0]["role"], "model");
    assert_eq!(result[0]["parts"][0]["functionCall"]["name"], "bash");
    assert_eq!(result[1]["role"], "user");
    assert_eq!(result[1]["parts"][0]["functionResponse"]["name"], "tc1");
}

#[test]
fn gemini_thinking_block() {
    let msgs = vec![thinking_assistant("pondering", "answer")];
    let result = all(&to_gemini_contents(&msgs));
    assert_eq!(result[0]["parts"][0]["thought"], true);
    assert_eq!(result[0]["parts"][1]["text"], "answer");
}

// ── Request bodies ────────────────────────────────────────

#[test]
fn build_request_with_tools() {
    let mut req = request("glm-5.1", Some("You are helpful"), vec![Message::user_text("run ls")], vec![bash_tool()]);
    req.base_url = Some("https://open.bigmodel.cn/api/coding/paas/v4/chat/completions".to_string());
    let body = serde_of(&build_openai_request(&req));
    assert_eq!(body["model"], "glm-5.1");
    assert!(body["tools"].as_array().unwrap().len() == 1);
    assert_eq!(body["tools"][0]["type"], "function");
    assert_eq!(body["tools"][0]["function"]["name"], "bash");
    assert_eq!(body["messages"][0]["role"], "system");
}

#[test]
fn openai_request_serializes_tool_arguments() {
    let msgs = vec![assistant(vec![ContentBlock::tool_call("c1", "read", parse(r#"{"path":"/tmp/x"}"#))])];
    let body = serde_of(&build_openai_request(&request("m", None, msgs, vec![])));
    assert_eq!(body["max_tokens"], 4096);
    assert_eq!(body["stream"], true);
    assert_eq!(body["messages"][0]["content"], serde_json::Value::Null);
    assert_eq!(body["messages"][0]["tool_calls"][0]["function"]["arguments"], r#"{"path":"/tmp/x"}"#);
}

#[test]
fn build_gemini_request_basic() {
    let req = request("gemini-2.5-pro", Some("You are helpful"), vec![Message::user_text("hello")], vec![]);
    let body = serde_of(&build_gemini_request(&req));
    assert!(body.get("contents").unwrap().as_array().unwrap().len() == 1);
    assert_eq!(body["contents"][0]["role"], "user");
    assert!(body.get("systemInstruction").is_some());
    assert_eq!(body["generationConfig"]["maxOutputTokens"], 4096);
}

#[test]
fn build_gemini_request_with_tools() {
    let req = request("gemini-2.5-pro", None, vec![], vec![bash_tool()]);
    let body = serde_of(&build_gemini_request(&req));
    let tools = body["tools"][0]["functionDeclarations"].as_array().unwrap();
    assert_eq!(tools.len(), 1);
    assert_eq!(tools[0]["name"], "bash");
}

#[test]
fn anthropic_request_with_thinking() {
    let mut req = request("m", Some("sys"), vec![text_user("hi")], vec![bash_tool()]);
    req.thinking_enabled = true;
    let body = serde_of(&build_anthropic_request(&req));
    assert_eq!(body["system"], "sys");
    assert_eq!(body["thinking"]["type"], "enabled");
    assert_eq!(body["thinking"]["budget_tokens"], 10000);
    assert_eq!(body["tools"][0]["input_schema"]["type"], "object");
    assert_eq!(body["messages"][0]["content"][0]["text"], "hi");
    req.thinking_budget = Some(2048);
    let body = serde_of(&build_anthropic_request(&req));
    assert_eq!(body["thinking"]["budget_tokens"], 2048);
}

#[test]
fn anthropic_request_marks_unsupported_blocks() {
    let msgs = vec![tool_result_user("t", "x")];
    let body = serde_of(&build_anthropic_request(&request("m", None, msgs, vec![])));
    assert_eq!(body["messages"][0]["content"][0]["text"], "[unsupported]");
    assert!(body.get("system").is_none());
}

#[test]
fn responses_vertex_bedrock_bodies() {
    let msgs = vec![
        Message::User(UserMessage {
            role: "user".to_string(),
            content: vec![ContentBlock::text("a"), ContentBlock::text("b")],
        }),
        text_assistant("c"),
    ];
    let req = request("m", Some("sys"), msgs, vec![bash_tool()]);
    let body = serde_of(&OpenAiResponsesDriver::build_request(&req));
    assert_eq!(body["input"][0]["content"], "a\nb");
    assert_eq!(body["instructions"], "sys");
    assert_eq!(body["tools"][0]["function"]["name"], "bash");
    let body = serde_of(&VertexDriver::build_request(&req));
    assert_eq!(body["contents"][0]["parts"][1]["text"], "b");
    assert_eq!(body["contents"][1]["role"], "model");
    assert_eq!(body["tools"][0]["function_declarations"][0]["name"], "bash");
    let body = serde_of(&BedrockDriver::build_request(&req));
    assert_eq!(body["system"][0]["text"], "sys");
    assert_eq!(body["toolConfig"]["tools"][0]["toolSpec"]["inputSchema"]["json"]["type"], "object");
}

// ── Stream decoding ───────────────────────────────────────

#[test]
fn parse_events_text_delta() {
    let chunk = parse(r#"{"choices": [{"delta": {"content": "hello"}, "index": 0}]}"#);
    let events = parse_openai_events(&chunk).unwrap();
    assert_eq!(events.len(), 1);
    match &events[0] {
        StreamEvent::TextDelta { text } => assert_eq!(text, "hello"),
        _ => panic!("expected TextDelta"),
    }
}

#[test]
fn parse_events_finish_with_usage() {
    let chunk = parse(
        r#"{"choices": [{"delta": {}, "finish_reason": "tool_calls", "index": 0}],
            "usage": {"prompt_tokens": 100, "completion_tokens": 50}}"#,
    );
    let events = parse_openai_events(&chunk).unwrap();
    assert!(events.iter().any(|e| matches!(e, StreamEvent::Stop { reason: Some(StopReason::ToolUse) })));
    assert!(events.iter().any(|e| matches!(e, StreamEvent::Usage(u) if u.input_tokens == 100)));
}

#[test]
fn parse_events_none_without_choices() {
    assert!(parse_openai_events(&parse(r#"{"choices": []}"#)).is_none());
    assert!(parse_openai_events(&parse(r#"{"choices": [{"delta": {"content": ""}}]}"#)).is_none());
}

#[test]
fn accumulate_tool_calls_multi_chunk() {
    let mut tc = Vec::new();
    let delta1 = parse(r#"{"tool_calls":[{"index":0,"id":"call_abc","function":{"name":"bash","arguments":"false"}}]}"#);
    accumulate_tool_calls(&mut tc, &delta1);
    assert_eq!(tc.len(), 1);
    assert_eq!(tc[0].id, "call_abc");
    assert_eq!(tc[0].name, "bash");
    assert_eq!(tc[0].arguments_json, "false");

    let delta2 = parse(r#"{"tool_calls":[{"index":0,"function":{"arguments":"}"}}]}"#);
    accumulate_tool_calls(&mut tc, &delta2);
    assert_eq!(tc[0].arguments_json, "false}");

    let result = take_tool_calls(&mut tc);
    assert_eq!(result.len(), 1);
    assert_eq!(result[0].0, 0);
    assert_eq!(result[0].1, "call_abc");
    assert_eq!(result[0].2, "bash");
    // The input text is handed on as streamed; it does not parse as JSON.
    assert!(serde_json::from_str::<serde_json::Value>(&result[0].3).is_err());
    assert!(tc.is_empty());
}

#[test]
fn accumulate_tool_calls_complete_json() {
    let mut tc = Vec::new();
    let delta = parse(
        r###"{"tool_calls":[{"index":0,"id":"call_123","function":{"name":"read","arguments":"{\"path\":\"/tmp/test.txt\"}"}}]}"###,
    );
    accumulate_tool_calls(&mut tc, &delta);
    assert_eq!(tc[0].arguments_json, r#"{"path":"/tmp/test.txt"}"#);

    let result = take_tool_calls(&mut tc);
    let input: serde_json::Value = serde_json::from_str(&result[0].3).unwrap();
    assert_eq!(input["path"], "/tmp/test.txt");
}

#[test]
fn accumulate_tool_calls_pads_slots() {
    let mut tc = Vec::new();
    accumulate_tool_calls(&mut tc, &parse(r#"{"tool_calls":[{"index":2,"id":"c"}]}"#));
    assert_eq!(tc.len(), 3);
    let result = take_tool_calls(&mut tc);
    assert_eq!(result.len(), 1);
    assert_eq!(result[0].0, 2);
}

#[test]
fn openai_stream_flushes_calls_on_finish_and_done() {
    let mut s = OpenAiStream::new();
    let chunk = parse(r#"{"choices":[{"delta":{"tool_calls":[{"index":0,"id":"c1","function":{"name":"ls","arguments":"{}"}}]}}]}"#);
    let ev = s.on_data("{...}", Some(&chunk));
    assert!(ev.is_empty());
    let finish = parse(r#"{"choices":[{"delta":{},"finish_reason":"tool_calls"}]}"#);
    let ev = s.on_data("{...}", Some(&finish));
    assert!(matches!(&ev[0], StreamEvent::ToolCallEnd { index: 0, id, name, input } if id == "c1" && name == "ls" && input == "{}"));
    assert!(matches!(&ev[1], StreamEvent::Stop { reason: Some(StopReason::ToolUse) }));
    let ev = s.on_data("[DONE]", None);
    assert_eq!(ev.len(), 1);
    assert!(matches!(&ev[0], StreamEvent::Stop { reason: None }));
    assert!(s.on_data("not json", None).is_empty());
}

#[test]
fn anthropic_stream_events() {
    let mut s = AnthropicStream::new();
    let start = parse(r#"{"message":{"usage":{"input_tokens":12,"output_tokens":1}}}"#);
    assert!(s.on_event("message_start", "", Some(&start)).is_empty());
    let block = parse(r#"{"index":1,"content_block":{"type":"tool_use","id":"tu1","name":"bash"}}"#);
    let ev = s.on_event("content_block_start", "", Some(&block));
    assert!(matches!(&ev[0], StreamEvent::ToolCallStart { index: 1, id, name } if id == "tu1" && name == "bash"));
    let delta = parse(r#"{"index":1,"delta":{"type":"input_json_delta","partial_json":"{\"a\":"}}"#);
    s.on_event("content_block_delta", "", Some(&delta));
    let delta = parse(r#"{"index":1,"delta":{"type":"input_json_delta","partial_json":"1}"}}"#);
    s.on_event("content_block_delta", "", Some(&delta));
    let ev = s.on_event("content_block_stop", "", None);
    assert!(matches!(&ev[0], StreamEvent::ToolCallEnd { index: 1, input, .. } if input == "{\"a\":1}"));
    let text = parse(r#"{"index":2,"delta":{"type":"text_delta","text":"hi"}}"#);
    let ev = s.on_event("content_block_delta", "", Some(&text));
    assert!(matches!(&ev[0], StreamEvent::TextDelta { text } if text == "hi"));
    let md = parse(r#"{"delta":{"stop_reason":"end_turn"},"usage":{"output_tokens":7}}"#);
    let ev = s.on_event("message_delta", "", Some(&md));
    assert!(matches!(&ev[0], StreamEvent::Usage(u) if u.input_tokens == 12 && u.output_tokens == 8));
    assert!(matches!(&ev[1], StreamEvent::Stop { reason: Some(StopReason::Stop) }));
    let ev = s.on_event("error", "raw failure", None);
    assert!(matches!(&ev[0], StreamEvent::Error { message } if message == "raw failure"));
    let err = parse(r#"{"error":{"message":"overloaded"}}"#);
    let ev = s.on_event("error", "x", Some(&err));
    assert!(matches!(&ev[0], StreamEvent::Error { message } if message == "overloaded"));
}

#[test]
fn parse_gemini_text_chunk() {
    let chunk = parse(r#"{"candidates": [{"content": {"parts": [{"text": "hello"}], "role": "model"}}]}"#);
    let mut tc = Vec::new();
    let events = parse_gemini_chunk(&chunk, &mut tc).unwrap();
    assert!(events.iter().any(|e| matches!(e, StreamEvent::TextDelta { text } if text == "hello")));
}

#[test]
fn gemini_function_calls_are_numbered() {
    let chunk = parse(
        r#"{"candidates":[{"finishReason":"STOP","content":{"parts":[{"functionCall":{"name":"ls","args":{"d":"/"}}}]}}],
            "usageMetadata":{"promptTokenCount":3,"candidatesTokenCount":4}}"#,
    );
    let mut s = GeminiStream::new();
    let ev = s.on_data("{...}", Some(&chunk));
    assert!(matches!(&ev[0], StreamEvent::Stop { reason: Some(StopReason::Stop) }));
    assert!(matches!(&ev[1], StreamEvent::Usage(u) if u.input_tokens == 3 && u.output_tokens == 4));
    assert!(matches!(&ev[2], StreamEvent::ToolCallEnd { index: 0, id, input, .. } if id == "gc_0" && input == "{\"d\":\"/\"}"));
    let ev = s.on_data("[DONE]", None);
    assert_eq!(ev.len(), 2);
    assert!(matches!(&ev[0], StreamEvent::ToolCallEnd { index: 0, .. }));
}

#[test]
fn line_payloads() {
    assert_eq!(data_payload("data: [DONE]").as_deref(), Some("[DONE]"));
    assert_eq!(data_payload("event: x"), None);
    let (ev, ends) = plain_openai_payload("[DONE]", None);
    assert!(ends && matches!(&ev[0], StreamEvent::Stop { reason: None }));
    let chunk = parse(r#"{"candidates":[{"content":{"parts":[{"text":"a","thought":"b"}]},"finishReason":"STOP"}],"usageMetadata":{}}"#);
    let (ev, ends) = vertex_payload("{...}", Some(&chunk));
    assert!(ends);
    assert_eq!(ev.len(), 3);
    let line = r#"{"type":"toolUse","toolUseId":"t","name":"n"}"#;
    let (ev, ends) = bedrock_line(line, Some(&parse(line)));
    assert!(!ends && matches!(&ev[0], StreamEvent::ToolCallStart { index: 0, .. }));
    let (ev, ends) = bedrock_line("noise", None);
    assert!(!ends && ev.is_empty());
}

#[test]
fn numbers_read_as_u64() {
    assert_eq!(parse_u64("0"), Some(0));
    assert_eq!(parse_u64("18446744073709551615"), Some(u64::MAX));
    assert_eq!(parse_u64("18446744073709551616"), None);
    assert_eq!(parse_u64("1.5"), None);
    assert_eq!(parse_u64("-1"), None);
    assert_eq!(parse_u64(""), None);
}

#[test]
fn json_text_is_compact() {
    let v = parse(r#"{"a": [1, "x\"y", null, true], "b": {}}"#);
    assert_eq!(v.to_text(), r#"{"a":[1,"x\"y",null,true],"b":{}}"#);
}

// ── Drivers ──────────────────────────────────────────────

#[test]
fn azure_driver_name() {
    let driver = AzureOpenAiDriver::new();
    assert_eq!(driver.name(), "azure-openai");
}

#[test]
fn azure_build_url_format() {
    let url = AzureOpenAiDriver::build_url("https://myresource.openai.azure.com", "gpt-4o-deployment");
    assert!(url.contains("myresource.openai.azure.com"));
    assert!(url.contains("gpt-4o-deployment"));
    assert!(url.contains("api-version=2024-02-15-preview"));
    assert_eq!(
        AzureOpenAiDriver::build_url("https://r.example//", "d"),
        "https://r.example/openai/deployments/d/chat/completions?api-version=2024-02-15-preview"
    );
}

#[test]
fn azure_default_impl() {
    let driver = AzureOpenAiDriver::default();
    assert_eq!(driver.name(), "azure-openai");
}

#[test]
fn bedrock_driver_name() {
    let driver = BedrockDriver::new();
    assert_eq!(driver.name(), "amazon-bedrock");
}

#[test]
fn bedrock_default_impl() {
    let driver = BedrockDriver::default();
    assert_eq!(driver.name(), "amazon-bedrock");
}

#[test]
fn build_url_encodes_model() {
    let url = BedrockDriver::build_url("anthropic.sonnet-4-20250514", "us-east-1");
    assert!(url.contains("bedrock-runtime.us-east-1.amazonaws.com"));
    assert!(url.contains("anthropic.sonnet-4-20250514"));
    assert!(url.contains("converse-stream"));
    assert_eq!(
        BedrockDriver::build_url("a/b", "eu-west-1"),
        "https://bedrock-runtime.eu-west-1.amazonaws.com/model/a%2Fb/converse-stream"
    );
}

#[test]
fn cloudflare_driver_name() {
    let driver = CloudflareDriver::new();
    assert_eq!(driver.name(), "cloudflare");
}

#[test]
fn build_url_no_account() {
    let result = CloudflareDriver::build_url(None, None, None);
    assert!(result.is_err());
}

#[test]
fn build_url_direct() {
    let url = CloudflareDriver::build_url(None, Some("test-acc-123"), None).unwrap();
    assert!(url.contains("api.cloudflare.com"));
    assert!(url.contains("test-acc-123"));
    assert!(url.contains("/ai/v1/chat/completions"));
}

#[test]
fn build_url_gateway() {
    let url = CloudflareDriver::build_url(None, Some("test-acc-123"), Some("my-gw")).unwrap();
    assert!(url.contains("gateway.ai.cloudflare.com"));
    assert!(url.contains("my-gw"));
}

#[test]
fn build_url_explicit_base() {
    let url = CloudflareDriver::build_url(Some("https://custom.example.com/v1"), None, None).unwrap();
    assert_eq!(url, "https://custom.example.com/v1/chat/completions");
}

#[test]
fn cloudflare_registered_in_provider_registry() {
    let reg = ProviderRegistry::new();
    let driver = reg.get("cloudflare");
    assert!(driver.is_some(), "cloudflare should be registered");
    assert_eq!(driver.unwrap().name(), "cloudflare");
}

#[test]
fn registry_names_and_overrides() {
    let mut reg = ProviderRegistry::new();
    assert_eq!(reg.get("deepseek"), Some(DriverId::OpenAi));
    assert_eq!(reg.get("gemini"), Some(DriverId::Gemini));
    assert_eq!(reg.get("nope"), None);
    reg.register("deepseek", DriverId::Anthropic);
    assert_eq!(reg.get("deepseek"), Some(DriverId::Anthropic));
    let names = reg.names();
    assert_eq!(names.len(), 13);
    assert_eq!(names[0], "anthropic");
}

#[test]
fn openai_responses_driver_name() {
    let driver = OpenAiResponsesDriver::new();
    assert_eq!(driver.name(), "openai-responses");
    assert_eq!(OpenAiResponsesDriver::build_url(Some("https://x.io/v1/")), "https://x.io/v1/responses");
    assert_eq!(OpenAiResponsesDriver::build_url(None), "https://api.openai.com/v1/responses");
}

#[test]
fn openai_responses_default_impl() {
    let driver = OpenAiResponsesDriver::default();
    assert_eq!(driver.name(), "openai-responses");
}

#[test]
fn vertex_driver_name() {
    let driver = VertexDriver::new();
    assert_eq!(driver.name(), "google-vertex");
}

#[test]
fn vertex_default_impl() {
    let driver = VertexDriver::default();
    assert_eq!(driver.name(), "google-vertex");
}

#[test]
fn vertex_build_url_format() {
    let url = VertexDriver::build_url("my-project", "us-central1", "gemini-2.0-flash");
    assert!(url.contains("us-central1-aiplatform.googleapis.com"));
    assert!(url.contains("my-project"));
    assert!(url.contains("gemini-2.0-flash"));
    assert!(url.contains("streamGenerateContent"));
}

#[test]
fn location_default() {
    assert_eq!(VERTEX_DEFAULT_LOCATION, "us-central1");
}

#[test]
fn gemini_url_format() {
    assert_eq!(
        GeminiDriver::build_url("https://g.example/", "m1"),
        "https://g.example/v1beta/models/m1:streamGenerateContent?alt=sse"
    );
    assert_eq!(GeminiDriver::new().name(), "google");
}
