//! The decisions of the agent loop: how a streamed model response is
//! accumulated, when the loop stops, when the context is compacted, and
//! how failed model calls are retried. The loop itself, which calls the
//! model and the tools, runs these steps.

use vstd::prelude::*;
use crate::json::{jview, JsonValue, JsonView};
use crate::message::{blocks_view, BlockView, ContentBlock};
use crate::text::{dec, find_pattern, occurs_at, push_dec, push_str, to_chars};

verus! {

/// The most model calls in one run.
pub const MAX_ITERATIONS: usize = 50;

/// Above this estimate of context tokens the context is compacted.
pub const COMPACTION_TRIGGER: u32 = 100_000;

/// Why the model stopped.
#[derive(Debug, Clone, Copy, PartialEq, Eq, Structural)]
pub enum StopKind {
    EndTurn,
    ToolUse,
    Length,
    Other,
}

/// What the loop reads of one streamed event.
#[derive(Debug, Clone)]
pub enum StreamItem {
    TextDelta(String),
    ThinkingDelta(String),
    ToolCallStart { id: String, name: String, index: usize },
    ToolCallEnd { index: usize, id: String, name: String, input: String },
    Stop(Option<StopKind>),
    Usage { input_tokens: u32, output_tokens: u32 },
    Error(String),
    Ignored,
}

/// A tool call of a response: its id, the tool's name and its JSON input.
#[derive(Debug, Clone)]
pub struct ToolCallSlot {
    pub id: String,
    pub name: String,
    pub input: String,
}

/// A model response as it is streamed in.
#[derive(Debug, Clone)]
pub struct ResponseAccumulator {
    pub text: String,
    pub thinking: String,
    pub tool_calls: Vec<ToolCallSlot>,
    pub stop_reason: Option<StopKind>,
    pub input_tokens: u32,
    pub output_tokens: u32,
}

/// An empty tool-call slot.
pub open spec fn empty_slot(s: ToolCallSlot) -> bool {
    s.id@.len() == 0 && s.name@.len() == 0 && s.input@.len() == 0
}

/// The slots after making room for `index`: unchanged when long enough,
/// else padded with empty slots up to `index + 1`.
pub open spec fn padded_ok(before: Seq<ToolCallSlot>, after: Seq<ToolCallSlot>, index: nat) -> bool {
    &&& after.len() == if index < before.len() { before.len() } else { index + 1 }
    &&& forall|k: int| 0 <= k < before.len() && k != index ==> after[k] == before[k]
    &&& forall|k: int| before.len() <= k < after.len() && k != index ==> empty_slot(after[k])
}

/// The error reported for an error event.
pub open spec fn llm_error_message(m: Seq<char>) -> Seq<char> {
    "LLM error: "@ + m
}

/// An event does not make a token count overflow.
pub open spec fn usage_fits(acc: ResponseAccumulator, item: StreamItem) -> bool {
    match item {
        StreamItem::Usage { input_tokens, output_tokens } => acc.input_tokens + input_tokens <= u32::MAX
            && acc.output_tokens + output_tokens <= u32::MAX,
        _ => true,
    }
}

impl ResponseAccumulator {
    /// Nothing received.
    pub fn new() -> (r: Self)
        ensures
            r.text@.len() == 0,
            r.thinking@.len() == 0,
            r.tool_calls@.len() == 0,
            r.stop_reason is None,
            r.input_tokens == 0,
            r.output_tokens == 0,
    {
        ResponseAccumulator {
            text: String::new(),
            thinking: String::new(),
            tool_calls: Vec::new(),
            stop_reason: None,
            input_tokens: 0,
            output_tokens: 0,
        }
    }

    fn make_room(&mut self, index: usize)
        ensures
            padded_ok(old(self).tool_calls@, final(self).tool_calls@, index as nat),
            final(self).tool_calls@.len() > index,
            forall|k: int| 0 <= k < old(self).tool_calls@.len() ==> final(self).tool_calls@[k] == old(self).tool_calls@[k],
            forall|k: int| old(self).tool_calls@.len() <= k < final(self).tool_calls@.len() ==> empty_slot(final(self).tool_calls@[k]),
            final(self).text == old(self).text,
            final(self).thinking == old(self).thinking,
            final(self).stop_reason == old(self).stop_reason,
            final(self).input_tokens == old(self).input_tokens,
            final(self).output_tokens == old(self).output_tokens,
    {
        let ghost before = self.tool_calls@;
        while self.tool_calls.len() <= index
            invariant
                before.len() <= self.tool_calls@.len() <= if index < before.len() { before.len() as int } else { index + 1 },
                forall|k: int| 0 <= k < before.len() ==> self.tool_calls@[k] == before[k],
                forall|k: int| before.len() <= k < self.tool_calls@.len() ==> empty_slot(self.tool_calls@[k]),
                self.text == old(self).text,
                self.thinking == old(self).thinking,
                self.stop_reason == old(self).stop_reason,
                self.input_tokens == old(self).input_tokens,
                self.output_tokens == old(self).output_tokens,
                before == old(self).tool_calls@,
            decreases index + 1 - self.tool_calls@.len(),
        {
            self.tool_calls.push(ToolCallSlot { id: String::new(), name: String::new(), input: String::new() });
        }
    }

    /// Takes in one streamed event: text and thinking are appended, a tool
    /// call start fills in the id and name of its slot, a tool call end
    /// replaces its slot, a stop event sets the stop reason, usage is
    /// added up, and an error event ends the response with an error.
    pub fn apply(&mut self, item: StreamItem) -> (r: Result<(), String>)
        requires
            usage_fits(*old(self), item),
        ensures
            match item {
                StreamItem::Error(m) => r matches Err(e) && e@ == llm_error_message(m@),
                _ => r is Ok,
            },
            match item {
                StreamItem::TextDelta(t) => final(self).text@ == old(self).text@ + t@,
                _ => final(self).text == old(self).text,
            },
            match item {
                StreamItem::ThinkingDelta(t) => final(self).thinking@ == old(self).thinking@ + t@,
                _ => final(self).thinking == old(self).thinking,
            },
            match item {
                StreamItem::ToolCallStart { id, name, index } => {
                    &&& padded_ok(old(self).tool_calls@, final(self).tool_calls@, index as nat)
                    &&& final(self).tool_calls@[index as int].id == id
                    &&& final(self).tool_calls@[index as int].name == name
                    &&& (index < old(self).tool_calls@.len() ==> final(self).tool_calls@[index as int].input
                        == old(self).tool_calls@[index as int].input)
                    &&& (index >= old(self).tool_calls@.len() ==> final(self).tool_calls@[index as int].input@.len() == 0)
                },
                StreamItem::ToolCallEnd { index, id, name, input } => {
                    &&& padded_ok(old(self).tool_calls@, final(self).tool_calls@, index as nat)
                    &&& final(self).tool_calls@[index as int] == (ToolCallSlot { id, name, input })
                },
                _ => final(self).tool_calls == old(self).tool_calls,
            },
            match item {
                StreamItem::Stop(reason) => final(self).stop_reason == reason,
                _ => final(self).stop_reason == old(self).stop_reason,
            },
            match item {
                StreamItem::Usage { input_tokens, output_tokens } => {
                    &&& final(self).input_tokens == old(self).input_tokens + input_tokens
                    &&& final(self).output_tokens == old(self).output_tokens + output_tokens
                },
                _ => {
                    &&& final(self).input_tokens == old(self).input_tokens
                    &&& final(self).output_tokens == old(self).output_tokens
                },
            },
    {
        match item {
            StreamItem::TextDelta(t) => {
                push_str(&mut self.text, t.as_str());
                Ok(())
            },
            StreamItem::ThinkingDelta(t) => {
                push_str(&mut self.thinking, t.as_str());
                Ok(())
            },
            StreamItem::ToolCallStart { id, name, index } => {
                self.make_room(index);
                let old_input = self.tool_calls[index].input.clone();
                self.tool_calls.set(index, ToolCallSlot { id, name, input: old_input });
                Ok(())
            },
            StreamItem::ToolCallEnd { index, id, name, input } => {
                self.make_room(index);
                self.tool_calls.set(index, ToolCallSlot { id, name, input });
                Ok(())
            },
            StreamItem::Stop(reason) => {
                self.stop_reason = reason;
                Ok(())
            },
            StreamItem::Usage { input_tokens, output_tokens } => {
                self.input_tokens = self.input_tokens + input_tokens;
                self.output_tokens = self.output_tokens + output_tokens;
                Ok(())
            },
            StreamItem::Error(m) => {
                let mut e = String::new();
                push_str(&mut e, "LLM error: ");
                push_str(&mut e, m.as_str());
                Err(e)
            },
            StreamItem::Ignored => Ok(()),
        }
    }
}

/// The tokens used over a run: what the model read and what it wrote.
#[derive(Debug, Clone, Copy, PartialEq, Eq, Structural)]
pub struct TokenUsage {
    pub input_tokens: u32,
    pub output_tokens: u32,
}

impl Default for TokenUsage {
    /// Nothing used yet.
    fn default() -> (u: Self)
        ensures
            u.input_tokens == 0,
            u.output_tokens == 0,
    {
        TokenUsage { input_tokens: 0, output_tokens: 0 }
    }
}

impl TokenUsage {
    /// Adds the tokens of one model call.
    pub fn add(&mut self, input_tokens: u32, output_tokens: u32)
        requires
            old(self).input_tokens + input_tokens <= u32::MAX,
            old(self).output_tokens + output_tokens <= u32::MAX,
        ensures
            final(self).input_tokens == old(self).input_tokens + input_tokens,
            final(self).output_tokens == old(self).output_tokens + output_tokens,
    {
        self.input_tokens = self.input_tokens + input_tokens;
        self.output_tokens = self.output_tokens + output_tokens;
    }
}

/// What the loop has gathered over its model calls.
#[derive(Debug, Clone)]
pub struct AgentTotals {
    pub text: String,
    pub thinking: String,
    pub tool_calls: usize,
    pub input_tokens: u32,
    pub output_tokens: u32,
}

/// What the loop does after a response.
#[derive(Debug, Clone, Copy, PartialEq, Eq, Structural)]
pub enum AfterResponse {
    /// The response called no tool: the run is over.
    Finish,
    /// Run the response's tool calls and call the model again.
    RunTools,
}

/// The totals do not overflow when a response is added.
pub open spec fn totals_fit(t: AgentTotals, r: ResponseAccumulator) -> bool {
    &&& t.input_tokens + r.input_tokens <= u32::MAX
    &&& t.output_tokens + r.output_tokens <= u32::MAX
    &&& t.tool_calls + r.tool_calls@.len() <= usize::MAX
}

impl AgentTotals {
    /// Nothing gathered.
    pub fn new() -> (t: Self)
        ensures
            t.text@.len() == 0,
            t.thinking@.len() == 0,
            t.tool_calls == 0,
            t.input_tokens == 0,
            t.output_tokens == 0,
    {
        AgentTotals { text: String::new(), thinking: String::new(), tool_calls: 0, input_tokens: 0, output_tokens: 0 }
    }

    /// Adds a response: its text, thinking and token counts; the run is
    /// over when it called no tool, else its tool calls are counted and
    /// they run.
    pub fn record(&mut self, r: &ResponseAccumulator) -> (step: AfterResponse)
        requires
            totals_fit(*old(self), *r),
        ensures
            final(self).text@ == old(self).text@ + r.text@,
            final(self).thinking@ == old(self).thinking@ + r.thinking@,
            final(self).input_tokens == old(self).input_tokens + r.input_tokens,
            final(self).output_tokens == old(self).output_tokens + r.output_tokens,
            r.tool_calls@.len() == 0 ==> step == AfterResponse::Finish && final(self).tool_calls
                == old(self).tool_calls,
            r.tool_calls@.len() > 0 ==> step == AfterResponse::RunTools && final(self).tool_calls
                == old(self).tool_calls + r.tool_calls@.len(),
    {
        push_str(&mut self.text, r.text.as_str());
        push_str(&mut self.thinking, r.thinking.as_str());
        self.input_tokens = self.input_tokens + r.input_tokens;
        self.output_tokens = self.output_tokens + r.output_tokens;
        if r.tool_calls.len() == 0 {
            AfterResponse::Finish
        } else {
            self.tool_calls = self.tool_calls + r.tool_calls.len();
            AfterResponse::RunTools
        }
    }
}

/// The text returned when the loop ran out of iterations.
pub open spec fn exhausted_text(total: Seq<char>) -> Seq<char> {
    if total.len() == 0 {
        "[agent loop exceeded max iterations]"@
    } else {
        total
    }
}

/// The text returned when the loop ran out of iterations: what was
/// produced, or a note when nothing was.
pub fn exhausted_output(total: &str) -> (r: String)
    ensures
        r@ == exhausted_text(total@),
{
    if total.is_empty() {
        "[agent loop exceeded max iterations]".to_owned()
    } else {
        total.to_owned()
    }
}

/// Whether the context must be compacted before the next model call.
pub fn needs_compaction(estimated_tokens: u32) -> (r: bool)
    ensures
        r == (estimated_tokens > COMPACTION_TRIGGER),
{
    estimated_tokens > COMPACTION_TRIGGER
}

/// The delay before retry number `attempt` (from 1): 1, 2, 4, 8, then 16
/// seconds.
pub open spec fn retry_delay(attempt: nat) -> nat {
    if attempt <= 1 {
        1
    } else if attempt == 2 {
        2
    } else if attempt == 3 {
        4
    } else if attempt == 4 {
        8
    } else {
        16
    }
}

/// The delay in seconds before retry number `attempt` (from 1).
pub fn retry_delay_secs(attempt: usize) -> (r: u64)
    requires
        attempt >= 1,
    ensures
        r == retry_delay(attempt as nat),
{
    let e = if attempt - 1 < 4 { attempt - 1 } else { 4 };
    let mut r: u64 = 1;
    let mut i: usize = 0;
    while i < e
        invariant
            i <= e <= 4,
            e == (if attempt - 1 < 4 { attempt - 1 } else { 4 }),
            r == retry_delay((i + 1) as nat),
        decreases e - i,
    {
        r = r * 2;
        i = i + 1;
    }
    r
}

/// A failed call is not retried when its message mentions the API key or
/// authentication.
pub open spec fn fatal_error(msg: Seq<char>) -> bool {
    (exists|i: int| occurs_at(msg, "API key"@, i)) || (exists|i: int| occurs_at(msg, "authentication"@, i))
}

/// Whether a failed model call must not be retried.
pub fn is_fatal_error(msg: &str) -> (r: bool)
    ensures
        r == fatal_error(msg@),
{
    let cs = to_chars(msg);
    let a = find_pattern(cs.as_slice(), "API key");
    let b = find_pattern(cs.as_slice(), "authentication");
    a.is_some() || b.is_some()
}

/// The output and error flag recorded for a tool call: the tool's own, or
/// the failure's message flagged as an error.
pub open spec fn tool_outcome_text(result: Result<(Seq<char>, bool), Seq<char>>) -> (Seq<char>, bool) {
    match result {
        Ok((o, e)) => (o, e),
        Err(m) => ("Tool execution error: "@ + m, true),
    }
}

/// The output and error flag recorded for a tool call.
pub fn tool_outcome(result: Result<(String, bool), String>) -> (r: (String, bool))
    ensures
        (r.0@, r.1) == tool_outcome_text(match result {
            Ok((o, e)) => Ok((o@, e)),
            Err(m) => Err(m@),
        }),
{
    match result {
        Ok((o, e)) => (o, e),
        Err(m) => {
            let mut s = String::new();
            push_str(&mut s, "Tool execution error: ");
            push_str(&mut s, m.as_str());
            (s, true)
        },
    }
}

/// The error for a call of a tool that is not registered.
pub fn unknown_tool_message(name: &str) -> (r: String)
    ensures
        r@ == "Unknown tool: "@ + name@,
{
    let mut s = String::new();
    push_str(&mut s, "Unknown tool: ");
    push_str(&mut s, name);
    s
}

/// How many of `total` entries a compaction removes, and the note that
/// replaces them: nothing below 20 entries; otherwise all but the last 10.
pub open spec fn compaction_plan_spec(total: nat) -> Option<(nat, Seq<char>)> {
    if total < 20 {
        None
    } else {
        let n = (total - 10) as nat;
        Some((
            n,
            "[Context compacted: removed "@ + dec(n) + " older messages to stay within token budget]"@,
        ))
    }
}

/// Plans the compaction of a context of `total` entries.
pub fn compaction_plan(total: usize) -> (r: Option<(usize, String)>)
    ensures
        match r {
            Some((n, s)) => compaction_plan_spec(total as nat) == Some((n as nat, s@)),
            None => compaction_plan_spec(total as nat) is None,
        },
{
    if total < 20 {
        return None;
    }
    let n = total - 10;
    let mut s = String::new();
    push_str(&mut s, "[Context compacted: removed ");
    push_dec(&mut s, n as u64);
    push_str(&mut s, " older messages to stay within token budget]");
    Some((n, s))
}

/// The content of the assistant's message after a response: its text, if
/// any, then a tool-use block for each tool call (id, name and input), in
/// order.
pub open spec fn assistant_blocks(text: Seq<char>, calls: Seq<(Seq<char>, Seq<char>, JsonView)>) -> Seq<BlockView> {
    let head = if text.len() == 0 { Seq::empty() } else { seq![BlockView::Text(text)] };
    head + Seq::new(calls.len(), |i: int| BlockView::ToolUse { id: calls[i].0, name: calls[i].1, input: calls[i].2 })
}

/// The views of tool calls given as id, name and input.
pub open spec fn calls_view(calls: Seq<(String, String, JsonValue)>) -> Seq<(Seq<char>, Seq<char>, JsonView)> {
    Seq::new(calls.len(), |i: int| (calls[i].0@, calls[i].1@, jview(calls[i].2)))
}

/// Builds the content of the assistant's message from the response's text
/// and its tool calls (id, name and input).
pub fn assistant_content(text: &str, calls: Vec<(String, String, JsonValue)>) -> (r: Vec<ContentBlock>)
    ensures
        blocks_view(r@) == assistant_blocks(text@, calls_view(calls@)),
{
    let ghost cv = calls_view(calls@);
    let ghost head: Seq<BlockView> = if text@.len() == 0 { Seq::empty() } else { seq![BlockView::Text(text@)] };
    let mut r: Vec<ContentBlock> = Vec::new();
    if !text.is_empty() {
        r.push(ContentBlock::text(text));
    }
    assert(blocks_view(r@) =~= head);
    let total = calls.len();
    let mut rest = calls;
    let ghost n = cv.len();
    let mut i: usize = 0;
    while rest.len() > 0
        invariant
            i + rest@.len() == n,
            cv.len() == n,
            n == total,
            calls_view(rest@) == cv.skip(i as int),
            head == (if text@.len() == 0 { Seq::<BlockView>::empty() } else { seq![BlockView::Text(text@)] }),
            blocks_view(r@) == head + Seq::new(i as nat, |k: int| BlockView::ToolUse { id: cv[k].0, name: cv[k].1, input: cv[k].2 }),
        decreases rest.len(),
    {
        let ghost rv = rest@;
        let (id, name, input) = rest.remove(0);
        assert(calls_view(rv)[0] == cv[i as int]);
        assert(calls_view(rest@) =~= cv.skip(i + 1)) by {
            assert(rest@ =~= rv.drop_first());
            assert forall|k: int| 0 <= k < rest@.len() implies calls_view(rest@)[k] == cv.skip(i + 1)[k] by {
                assert(calls_view(rv)[k + 1] == cv.skip(i as int)[k + 1]);
            }
        }
        let b = ContentBlock::tool_call(id.as_str(), name.as_str(), input);
        let ghost before = r@;
        r.push(b);
        assert(blocks_view(r@) =~= blocks_view(before).push(b@));
        assert(blocks_view(r@) =~= head + Seq::new((i + 1) as nat, |k: int| BlockView::ToolUse { id: cv[k].0, name: cv[k].1, input: cv[k].2 }));
        i = i + 1;
    }
    assert(cv.skip(0) =~= cv);
    r
}

} // verus!
