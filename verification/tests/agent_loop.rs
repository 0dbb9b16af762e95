use piso::json::JsonValue;
use piso::message::ContentBlock;
use piso::agent_loop::{
    assistant_content, compaction_plan, exhausted_output, is_fatal_error, needs_compaction, retry_delay_secs,
    tool_outcome, unknown_tool_message, AfterResponse, AgentTotals, ResponseAccumulator, StopKind,
    StreamItem,
};

#[test]
fn accumulates_a_streamed_response() {
    let mut acc = ResponseAccumulator::new();
    assert!(acc.apply(StreamItem::TextDelta("Hel".to_string())).is_ok());
    assert!(acc.apply(StreamItem::TextDelta("lo".to_string())).is_ok());
    assert!(acc.apply(StreamItem::ThinkingDelta("hmm".to_string())).is_ok());
    assert!(acc.apply(StreamItem::ToolCallStart { id: "c2".to_string(), name: "ls".to_string(), index: 1 }).is_ok());
    assert_eq!(acc.tool_calls.len(), 2);
    assert!(acc.tool_calls[0].id.is_empty());
    assert_eq!(acc.tool_calls[1].name, "ls");
    assert!(acc
        .apply(StreamItem::ToolCallEnd { index: 0, id: "c1".to_string(), name: "bash".to_string(), input: "{}".to_string() })
        .is_ok());
    assert_eq!(acc.tool_calls[0].name, "bash");
    assert!(acc.apply(StreamItem::Usage { input_tokens: 10, output_tokens: 3 }).is_ok());
    assert!(acc.apply(StreamItem::Usage { input_tokens: 1, output_tokens: 1 }).is_ok());
    assert!(acc.apply(StreamItem::Stop(Some(StopKind::ToolUse))).is_ok());
    assert!(acc.apply(StreamItem::Ignored).is_ok());
    assert_eq!(acc.text, "Hello");
    assert_eq!(acc.thinking, "hmm");
    assert_eq!(acc.input_tokens, 11);
    assert_eq!(acc.output_tokens, 4);
    assert_eq!(acc.stop_reason, Some(StopKind::ToolUse));
    assert_eq!(acc.apply(StreamItem::Error("boom".to_string())).err().unwrap(), "LLM error: boom");
}

#[test]
fn totals_decide_whether_to_run_tools() {
    let mut totals = AgentTotals::new();
    let mut first = ResponseAccumulator::new();
    let _ = first.apply(StreamItem::TextDelta("a".to_string()));
    let _ = first.apply(StreamItem::ToolCallEnd { index: 0, id: "1".to_string(), name: "ls".to_string(), input: "{}".to_string() });
    assert_eq!(totals.record(&first), AfterResponse::RunTools);
    assert_eq!(totals.tool_calls, 1);
    let mut last = ResponseAccumulator::new();
    let _ = last.apply(StreamItem::TextDelta("b".to_string()));
    assert_eq!(totals.record(&last), AfterResponse::Finish);
    assert_eq!(totals.text, "ab");
    assert_eq!(totals.tool_calls, 1);
}

#[test]
fn loop_limits_and_retries() {
    assert_eq!(exhausted_output(""), "[agent loop exceeded max iterations]");
    assert_eq!(exhausted_output("done"), "done");
    assert!(!needs_compaction(100_000));
    assert!(needs_compaction(100_001));
    let delays: Vec<u64> = (1..=6).map(retry_delay_secs).collect();
    assert_eq!(delays, vec![1, 2, 4, 8, 16, 16]);
    assert!(is_fatal_error("invalid API key"));
    assert!(is_fatal_error("authentication failed"));
    assert!(!is_fatal_error("timeout"));
}

#[test]
fn tool_outcomes_and_compaction_plan() {
    assert_eq!(tool_outcome(Ok(("out".to_string(), false))), ("out".to_string(), false));
    assert_eq!(tool_outcome(Err("x".to_string())), ("Tool execution error: x".to_string(), true));
    assert_eq!(unknown_tool_message("nope"), "Unknown tool: nope");
    assert_eq!(compaction_plan(19), None);
    assert_eq!(
        compaction_plan(25),
        Some((15, "[Context compacted: removed 15 older messages to stay within token budget]".to_string()))
    );
}

#[test]
fn assistant_content_text_then_tool_calls() {
    let calls = vec![
        ("t1".to_string(), "read".to_string(), JsonValue::Null),
        ("t2".to_string(), "bash".to_string(), JsonValue::Bool(true)),
    ];
    let blocks = assistant_content("thinking aloud", calls);
    assert_eq!(blocks.len(), 3);
    assert!(matches!(&blocks[0], ContentBlock::Text(t) if t.text == "thinking aloud"));
    assert!(matches!(&blocks[1], ContentBlock::ToolUse(c) if c.id == "t1" && c.name == "read" && matches!(c.input, JsonValue::Null)));
    assert!(matches!(&blocks[2], ContentBlock::ToolUse(c) if c.id == "t2" && c.name == "bash" && matches!(c.input, JsonValue::Bool(true))));
    let blocks = assistant_content("", vec![]);
    assert!(blocks.is_empty());
}
