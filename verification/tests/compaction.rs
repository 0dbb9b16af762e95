use piso::compaction::{
    compaction_request, serialize_entries, should_compact, summary_written, take_summary_event,
    MAX_ENTRIES, SUMMARIZE_PROMPT,
};
use piso::json::JsonValue;
use piso::llm_stream::StreamEvent;
use piso::message::{ContentBlock, Message};
use piso::session_log::{JsonlSession, MessageEntry, SessionEntry};

fn create_test_session(count: usize) -> JsonlSession {
    let mut session = JsonlSession::create_with_id_at("/tmp/test.jsonl", "/test", "id", "2025-01-01T00:00:00Z");
    for i in 0..count {
        let role = if i % 2 == 0 { "user" } else { "assistant" };
        session.append(SessionEntry::Message(MessageEntry {
            id: format!("{}", i),
            parent_id: None,
            timestamp: "2025-01-01T00:00:00Z".to_string(),
            role: role.to_string(),
            content: format!("[{{\"type\":\"text\",\"text\":\"Message {}\"}}]", i),
            model: None,
            stop_reason: None,
        }));
    }
    session
}

fn obj(members: Vec<(&str, JsonValue)>) -> JsonValue {
    JsonValue::Object(members.into_iter().map(|(k, v)| (k.to_string(), v)).collect())
}

fn s(t: &str) -> JsonValue {
    JsonValue::Str(t.to_string())
}

fn text_block(t: &str) -> JsonValue {
    obj(vec![("type", s("text")), ("text", s(t))])
}

#[test]
fn should_not_compact_small_session() {
    let session = create_test_session(5);
    assert!(!should_compact(&session));
}

#[test]
fn should_compact_large_session() {
    let session = create_test_session(MAX_ENTRIES + 10);
    assert!(should_compact(&session));
    assert!(!should_compact(&create_test_session(MAX_ENTRIES)));
}

#[test]
fn serialize_entries_format() {
    let entries = vec![("user".to_string(), JsonValue::Array(vec![text_block("hello")]))];
    let result = serialize_entries(&entries);
    assert!(result.contains("user"));
    assert!(result.contains("hello"));
    assert_eq!(result, "[user] hello\n");
}

#[test]
fn serialize_entries_blocks() {
    let entries = vec![
        (
            "assistant".to_string(),
            JsonValue::Array(vec![
                text_block("a"),
                obj(vec![("type", s("tool_use")), ("id", s("1"))]),
                obj(vec![("type", s("thinking")), ("thinking", s("x"))]),
                obj(vec![("type", s("tool_result")), ("content", s("done"))]),
                obj(vec![("type", s("tool_use")), ("name", s("bash"))]),
            ]),
        ),
        ("user".to_string(), JsonValue::Array(vec![])),
        ("user".to_string(), s("not an array")),
    ];
    assert_eq!(serialize_entries(&entries), "[assistant] a\ntool\ndone\nbash\n");
}

#[test]
fn compaction_request_summarises_older_messages() {
    let mut messages = Vec::new();
    for i in 0..12 {
        messages.push(("user".to_string(), JsonValue::Array(vec![text_block(&format!("m{}", i))])));
    }
    let req = compaction_request(&messages, "gpt", "key", &None).unwrap();
    assert_eq!(req.model, "gpt");
    assert_eq!(req.system_prompt.as_deref(), Some(SUMMARIZE_PROMPT));
    assert_eq!(req.max_tokens, 2048);
    assert!(req.tools.is_empty());
    assert!(!req.thinking_enabled);
    match &req.messages[0] {
        Message::User(u) => match &u.content[0] {
            ContentBlock::Text(t) => assert_eq!(t.text, "Summarize this conversation:\n\n[user] m0\n[user] m1\n"),
            _ => panic!("expected text"),
        },
        _ => panic!("expected a user message"),
    }
    assert!(compaction_request(&messages[..10], "gpt", "key", &None).is_none());
}

#[test]
fn summary_stream_collects_text_until_stop() {
    let mut summary = String::new();
    assert!(take_summary_event(&mut summary, Some(&StreamEvent::TextDelta { text: "a".to_string() })));
    assert!(take_summary_event(&mut summary, Some(&StreamEvent::Start)));
    assert!(take_summary_event(&mut summary, Some(&StreamEvent::TextDelta { text: "b".to_string() })));
    assert!(!take_summary_event(&mut summary, Some(&StreamEvent::Stop { reason: None })));
    assert!(!take_summary_event(&mut summary, None));
    assert_eq!(summary, "ab");
    assert!(summary_written(&summary));
    assert!(!summary_written(""));
}

#[test]
fn token_usage_adds_up() {
    let mut u = piso::agent_loop::TokenUsage::default();
    u.add(10, 5);
    u.add(1, 2);
    assert_eq!(u, piso::agent_loop::TokenUsage { input_tokens: 11, output_tokens: 7 });
}
