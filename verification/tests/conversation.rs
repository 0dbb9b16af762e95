use piso::conversation::{
    blocks_to_json, build_messages, content_block_to_json, message_of_entry, parse_content_blocks,
    parse_stop_reason, stop_reason_name,
};
use piso::export::{extract_text_from_content, render_session_html};
use piso::json::JsonValue;
use piso::message::{ContentBlock, Message, StopReason};
use piso::session_log::MessageEntry;

fn obj(members: Vec<(&str, JsonValue)>) -> JsonValue {
    JsonValue::Object(members.into_iter().map(|(k, v)| (k.to_string(), v)).collect())
}

fn s(t: &str) -> JsonValue {
    JsonValue::Str(t.to_string())
}

fn entry(role: &str, stop: Option<&str>) -> MessageEntry {
    MessageEntry {
        id: "1".to_string(),
        parent_id: None,
        timestamp: "t".to_string(),
        role: role.to_string(),
        content: String::new(),
        model: Some("m".to_string()),
        stop_reason: stop.map(|x| x.to_string()),
    }
}

#[test]
fn stop_reasons_by_name() {
    assert_eq!(parse_stop_reason("stop"), Some(StopReason::Stop));
    assert_eq!(parse_stop_reason("end_turn"), Some(StopReason::Stop));
    assert_eq!(parse_stop_reason("tool_use"), Some(StopReason::ToolUse));
    assert_eq!(parse_stop_reason("max_tokens"), Some(StopReason::Length));
    assert_eq!(parse_stop_reason("error"), Some(StopReason::Error));
    assert_eq!(parse_stop_reason("aborted"), Some(StopReason::Aborted));
    assert_eq!(parse_stop_reason("tooluse"), None);
    assert_eq!(stop_reason_name(StopReason::ToolUse), "tooluse");
    assert_eq!(stop_reason_name(StopReason::Length), "length");
}

#[test]
fn content_blocks_from_stored_json() {
    let content = JsonValue::Array(vec![
        obj(vec![("type", s("text")), ("text", s("hi"))]),
        obj(vec![("type", s("tool_use")), ("id", s("c1")), ("name", s("bash")), ("input", obj(vec![("command", s("ls"))]))]),
        obj(vec![("type", s("tool_result")), ("tool_use_id", s("c1")), ("content", s("out")), ("is_error", JsonValue::Bool(true))]),
        obj(vec![("type", s("image"))]),
        obj(vec![("text", s("no type"))]),
        obj(vec![("type", s("text"))]),
    ]);
    let blocks = parse_content_blocks(&content);
    assert_eq!(blocks.len(), 4);
    assert!(matches!(&blocks[0], ContentBlock::Text(t) if t.text == "hi"));
    assert!(matches!(&blocks[1], ContentBlock::ToolUse(c) if c.id == "c1" && c.name == "bash"));
    assert!(matches!(&blocks[2], ContentBlock::ToolResult(r) if r.tool_use_id == "c1" && r.content == "out" && r.is_error));
    assert!(matches!(&blocks[3], ContentBlock::Text(t) if t.text.is_empty()));
    assert!(parse_content_blocks(&s("text")).is_empty());
}

#[test]
fn stored_json_round_trip() {
    let blocks = vec![
        ContentBlock::text("a"),
        ContentBlock::tool_call("i", "n", JsonValue::Null),
        ContentBlock::tool_result("i", "r", false),
    ];
    let json = blocks_to_json(&blocks);
    assert_eq!(
        json.to_text(),
        "[{\"type\":\"text\",\"text\":\"a\"},{\"type\":\"tool_use\",\"id\":\"i\",\"name\":\"n\",\"input\":null},{\"type\":\"tool_result\",\"tool_use_id\":\"i\",\"content\":\"r\",\"is_error\":false}]"
    );
    let back = parse_content_blocks(&json);
    assert_eq!(back.len(), 3);
    let thinking = ContentBlock::Thinking(piso::message::ThinkingContent { thinking: "x".to_string(), signature: None });
    assert_eq!(content_block_to_json(&thinking).to_text(), "{\"type\":\"text\",\"text\":\"[unsupported]\"}");
}

#[test]
fn messages_rebuilt_from_entries() {
    let text = JsonValue::Array(vec![obj(vec![("type", s("text")), ("text", s("hello"))])]);
    let empty = JsonValue::Array(vec![]);
    let entries = vec![
        (entry("user", None), text.duplicate()),
        (entry("assistant", Some("end_turn")), text.duplicate()),
        (entry("system", None), text.duplicate()),
        (entry("user", None), empty),
    ];
    let messages = build_messages(&entries);
    assert_eq!(messages.len(), 2);
    assert!(matches!(&messages[0], Message::User(_)));
    match &messages[1] {
        Message::Assistant(a) => {
            assert_eq!(a.stop_reason, Some(StopReason::Stop));
            assert_eq!(a.model.as_deref(), Some("m"));
            assert_eq!(a.timestamp.as_deref(), Some("t"));
        },
        _ => panic!("expected an assistant message"),
    }
    assert!(message_of_entry(&entry("tool", None), &text).is_none());
}

#[test]
fn export_text_and_page() {
    let content = JsonValue::Array(vec![
        obj(vec![("type", s("text")), ("text", s("a <b>"))]),
        obj(vec![("type", s("tool_use")), ("name", s("bash"))]),
        obj(vec![("type", s("text")), ("text", s("c"))]),
    ]);
    assert_eq!(extract_text_from_content(&content), "a <b>\nc");
    assert_eq!(extract_text_from_content(&s("x")), "");
    let messages = vec![
        ("user".to_string(), content.duplicate()),
        ("assistant".to_string(), JsonValue::Array(vec![obj(vec![("type", s("text")), ("text", s("# Title"))])])),
        ("system".to_string(), content.duplicate()),
    ];
    let page = render_session_html("sid", &messages);
    assert!(page.starts_with("<!DOCTYPE html>\n<html>\n<head>\n<meta charset=\"utf-8\">"));
    assert!(page.contains("<title>piso session sid</title>"));
    assert!(page.contains("<p style=\"color:#666\">ID: sid</p>\n<div class=\"msg user\"><div class=\"role\">You</div><div class=\"content\"><pre>a &lt;b&gt;\nc</pre></div></div>\n"));
    assert!(page.contains("<div class=\"msg assistant\"><div class=\"role\">Assistant</div><div class=\"content\"><h1>Title</h1>\n</div></div>\n"));
    assert!(page.ends_with("</div></div>\n\n</body>\n</html>"));
}
