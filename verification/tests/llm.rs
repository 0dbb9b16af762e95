use piso::markdown::{html_escape, inline_html, inline_replace, markdown_to_simple_html, InlineSpan};
use piso::json::JsonValue;
use piso::rpc::{driver_kind, rpc_agent_finished, rpc_handle_command, rpc_messages, rpc_session_created, DriverKind, RpcAction, RpcCommand, RpcEvent};
use piso::session::{generate_session_id, latest_session_id, pick_by_prefix, session_id_from, SessionInfo, SessionManager};
use piso::sse::{OpenAiSseParser, SseEvent, SseLineParser};

#[test]
fn openai_sse_parser_basic() {
    let mut parser = OpenAiSseParser::new();
    parser.feed(b"data: {\"choices\":[{\"delta\":{\"content\":\"hello\"}}]}\n\ndata: {\"choices\":[{\"delta\":{\"content\":\" world\"}}]}\n\ndata: [DONE]\n\n");

    match parser.next_event() {
        Some(SseEvent::Data(d)) => assert!(d.contains("hello")),
        _ => panic!("expected Data"),
    }
    match parser.next_event() {
        Some(SseEvent::Data(d)) => assert!(d.contains("world")),
        _ => panic!("expected Data"),
    }
    match parser.next_event() {
        Some(SseEvent::Data(d)) => assert_eq!(d, "[DONE]"),
        _ => panic!("expected Data"),
    }
    assert!(parser.next_event().is_none());
}

#[test]
fn openai_sse_parser_incremental() {
    let mut parser = OpenAiSseParser::new();
    parser.feed(b"data: {\"choices\":[{\"delta\":");
    assert!(parser.next_event().is_none());
    parser.feed(b"{\"content\":\"hi\"}}]}\n\n");
    match parser.next_event() {
        Some(SseEvent::Data(d)) => assert!(d.contains("hi")),
        _ => panic!("expected Data"),
    }
}

#[test]
fn openai_sse_errors_and_crlf() {
    let mut parser = OpenAiSseParser::new();
    parser.feed(b": comment\r\ndata:   \r\nerror:  bad thing \r\ndata:x\n");
    match parser.next_event() {
        Some(SseEvent::Error(m)) => assert_eq!(m, "bad thing"),
        _ => panic!("expected Error"),
    }
    match parser.next_event() {
        Some(SseEvent::Data(d)) => assert_eq!(d, "x"),
        _ => panic!("expected Data"),
    }
    assert!(parser.next_event().is_none());
}

#[test]
fn anthropic_style_blocks() {
    let mut p = SseLineParser::new();
    p.feed(b"event: message_start\ndata: {\"a\":1}\n\nevent: ping\n\n");
    p.feed(b"data: {\"b\":2}\n\nevent: x\ndata:");
    assert_eq!(p.next_event(), Some(("message_start".to_string(), "{\"a\":1}".to_string())));
    assert_eq!(p.next_event(), Some(("message".to_string(), "{\"b\":2}".to_string())));
    assert_eq!(p.next_event(), None);
    p.feed(b" late \n\n");
    assert_eq!(p.next_event(), Some(("x".to_string(), "late".to_string())));
}

#[test]
fn markdown_conversion() {
    let md = "# Title <1>\n## Sub\n- item **bold**\n  * other `code`\n```\nlet x = 1 < 2;\n```\nplain & text";
    let html = markdown_to_simple_html(md);
    assert_eq!(
        html,
        "<h1>Title &lt;1&gt;</h1>\n<h2>Sub</h2>\n<li>item <strong>bold</strong></li>\n<li>other <code>code</code></li>\n<pre><code>let x = 1 &lt; 2;\n</code></pre>\n<p>plain &amp; text</p>\n"
    );
}

#[test]
fn inline_spans() {
    assert_eq!(inline_replace("a `b` c", InlineSpan::Code, "<code>$1</code>"), "a <code>b</code> c");
    assert_eq!(inline_replace("a `b` **c**", InlineSpan::Bold, "<b>$1</b>"), "a `b` <b>c</b>");
    assert_eq!(inline_replace("**x*y** z", InlineSpan::Bold, "R[$1]"), "R[x*y] z");
    assert_eq!(inline_replace("**x** `y`", InlineSpan::Code, "C[$1]"), "**x** C[y]");
    assert_eq!(inline_replace("`open", InlineSpan::Code, "[$1|$1]"), "[open|open]");
    assert_eq!(inline_replace("**never closed", InlineSpan::Bold, "<strong>$1</strong>"), "<strong>never closed</strong>");
    assert_eq!(inline_html("`x`"), "<code>x</code>");
    assert_eq!(inline_html("**b** and `c`"), "<strong>b</strong> and <code>c</code>");
    assert_eq!(inline_html("\"q\""), "&quot;q&quot;");
    assert_eq!(html_escape("<&>"), "&lt;&amp;&gt;");
}

#[test]
fn rpc_prompt_and_busy() {
    let (running, acts) = rpc_handle_command(false, RpcCommand::Prompt { id: Some("1".into()), message: "hi".into() }, 0, "s");
    assert!(running);
    assert_eq!(acts.len(), 2);
    assert!(matches!(&acts[0], RpcAction::Emit(RpcEvent::StateChange { state }) if state == "running"));
    assert!(matches!(&acts[1], RpcAction::RunAgent { id: Some(i), message } if i == "1" && message == "hi"));
    let (running, acts) = rpc_handle_command(true, RpcCommand::Prompt { id: None, message: "again".into() }, 0, "s");
    assert!(running);
    assert!(matches!(&acts[0], RpcAction::Emit(RpcEvent::Error { id: None, message }) if message == "Agent is already running, abort first"));
}

#[test]
fn rpc_state_abort_and_finish() {
    let (running, acts) = rpc_handle_command(true, RpcCommand::GetState { id: None }, 7, "sess");
    assert!(running);
    assert!(matches!(&acts[0], RpcAction::Emit(RpcEvent::State { state, message_count: 7, session_id, .. }) if state == "running" && session_id == "sess"));
    let (running, acts) = rpc_handle_command(true, RpcCommand::Abort { id: Some("a".into()) }, 0, "s");
    assert!(!running);
    assert!(matches!(&acts[1], RpcAction::Emit(RpcEvent::Done { id: Some(i) }) if i == "a"));
    let evs = rpc_agent_finished(Some("1".into()), Some("boom".into()));
    assert_eq!(evs.len(), 3);
    assert!(matches!(&evs[0], RpcEvent::Error { message, .. } if message == "boom"));
    assert!(matches!(&evs[2], RpcEvent::Done { id: Some(i) } if i == "1"));
    assert_eq!(rpc_agent_finished(None, None).len(), 2);
    assert!(matches!(rpc_session_created(None, "new"), RpcEvent::State { message_count: 0, .. }));
    let (_, acts) = rpc_handle_command(false, RpcCommand::NewSession { id: None }, 0, "s");
    assert!(matches!(&acts[0], RpcAction::CreateSession { id: None }));
    let (_, acts) = rpc_handle_command(false, RpcCommand::GetMessages { id: None }, 0, "s");
    assert!(matches!(&acts[0], RpcAction::SendMessages { id: None }));
}

#[test]
fn driver_choice() {
    assert_eq!(driver_kind("openai-responses"), DriverKind::OpenAi);
    assert_eq!(driver_kind("gemini"), DriverKind::Gemini);
    assert_eq!(driver_kind("anthropic-messages"), DriverKind::Anthropic);
}

fn info(id: &str) -> SessionInfo {
    SessionInfo {
        id: id.to_string(),
        path: format!("/s/{id}/session.jsonl"),
        created_at: String::new(),
        cwd: "/".to_string(),
        message_count: 0,
        is_today: false,
    }
}

#[test]
fn session_selection() {
    let list = vec![info("20260511-1430-a3f2"), info("20260511-1431-bbbb"), info("20250101-0000-0000")];
    assert_eq!(pick_by_prefix(&list, "2025").unwrap().unwrap().id, "20250101-0000-0000");
    assert!(pick_by_prefix(&list, "x").unwrap().is_none());
    assert_eq!(
        pick_by_prefix(&list, "20260511").unwrap_err(),
        "Ambiguous session prefix '20260511', matches 2 sessions"
    );
    assert_eq!(latest_session_id(&list).unwrap(), "20260511-1430-a3f2");
    assert_eq!(latest_session_id(&[]).unwrap_err(), "No previous sessions found");
}

#[test]
fn session_ids_and_paths() {
    assert_eq!(session_id_from("20260511-1430", 0x1234_5678), "20260511-1430-444c");
    let id = generate_session_id();
    assert_eq!(id.len(), "20260511-1430-a3f2".len());
    let m = SessionManager::new("/home/u/.piso/sessions");
    assert_eq!(m.sessions_dir(), "/home/u/.piso/sessions");
    assert_eq!(m.session_file("abc"), "/home/u/.piso/sessions/abc/session.jsonl");
}

#[test]
fn rpc_messages_keep_text_only() {
    let block = |kind: &str, text: &str| {
        JsonValue::Object(vec![
            ("type".to_string(), JsonValue::Str(kind.to_string())),
            ("text".to_string(), JsonValue::Str(text.to_string())),
        ])
    };
    let items = vec![
        ("user".to_string(), JsonValue::Array(vec![block("text", "hi"), block("image", "x"), block("text", "there")])),
        ("assistant".to_string(), JsonValue::Array(vec![block("tool_use", "t")])),
        ("assistant".to_string(), JsonValue::Str("not blocks".to_string())),
        ("assistant".to_string(), JsonValue::Array(vec![block("text", "done")])),
    ];
    let ms = rpc_messages(&items);
    assert_eq!(ms.len(), 2);
    assert_eq!(ms[0].role, "user");
    assert_eq!(ms[0].content, "hi\nthere");
    assert_eq!(ms[1].role, "assistant");
    assert_eq!(ms[1].content, "done");
}
