//! What the model providers stream back, turned into the agent's stream
//! events: text and thinking as they come, tool calls once their input is
//! complete, token usage and the reason the model stopped. Each provider's
//! chunks arrive as JSON values; a tool call's input is handed on as the
//! JSON text that was streamed for it.

use vstd::prelude::*;
use crate::json::{jget, jstr_of, ju64_of, jbool_of, jtext, jview, jview_items, lemma_jview_items, JsonValue, JsonView};
use crate::message::{StopReason, Usage};
use crate::text::{dec, push_dec, push_str, str_eq};

verus! {

/// One event of a model response stream.
#[derive(Debug)]
pub enum StreamEvent {
    Start,
    TextDelta { text: String },
    ThinkingDelta { thinking: String },
    ToolCallStart { id: String, name: String, index: usize },
    ToolCallDelta { index: usize, input: String },
    /// A complete tool call; `input` is the JSON text of its input.
    ToolCallEnd { index: usize, id: String, name: String, input: String },
    ToolResult { id: String, name: String, output: String, is_error: bool },
    Usage(Usage),
    Stop { reason: Option<StopReason> },
    Error { message: String },
}

/// A stream event as mathematical values.
pub enum EventView {
    Start,
    TextDelta(Seq<char>),
    ThinkingDelta(Seq<char>),
    ToolCallStart { id: Seq<char>, name: Seq<char>, index: usize },
    ToolCallDelta { index: usize, input: Seq<char> },
    ToolCallEnd { index: usize, id: Seq<char>, name: Seq<char>, input: Seq<char> },
    ToolResult { id: Seq<char>, name: Seq<char>, output: Seq<char>, is_error: bool },
    Usage(Usage),
    Stop(Option<StopReason>),
    Error(Seq<char>),
}

impl View for StreamEvent {
    type V = EventView;

    open spec fn view(&self) -> EventView {
        match self {
            StreamEvent::Start => EventView::Start,
            StreamEvent::TextDelta { text } => EventView::TextDelta(text@),
            StreamEvent::ThinkingDelta { thinking } => EventView::ThinkingDelta(thinking@),
            StreamEvent::ToolCallStart { id, name, index } => EventView::ToolCallStart { id: id@, name: name@, index: *index },
            StreamEvent::ToolCallDelta { index, input } => EventView::ToolCallDelta { index: *index, input: input@ },
            StreamEvent::ToolCallEnd { index, id, name, input } => EventView::ToolCallEnd {
                index: *index,
                id: id@,
                name: name@,
                input: input@,
            },
            StreamEvent::ToolResult { id, name, output, is_error } => EventView::ToolResult {
                id: id@,
                name: name@,
                output: output@,
                is_error: *is_error,
            },
            StreamEvent::Usage(u) => EventView::Usage(*u),
            StreamEvent::Stop { reason } => EventView::Stop(*reason),
            StreamEvent::Error { message } => EventView::Error(message@),
        }
    }
}

/// The views of a list of events.
pub open spec fn events_view(s: Seq<StreamEvent>) -> Seq<EventView> {
    s.map_values(|e: StreamEvent| e@)
}

fn push_event(out: &mut Vec<StreamEvent>, e: StreamEvent)
    ensures
        events_view(final(out)@) == events_view(old(out)@).push(e@),
{
    let ghost before = out@;
    out.push(e);
    assert(events_view(out@) =~= events_view(before).push(e@));
}

// ---------------------------------------------------------------------
// Reading JSON chunks
// ---------------------------------------------------------------------

/// The member `key` of a value that may be missing.
pub open spec fn jat(j: Option<JsonView>, key: Seq<char>) -> Option<JsonView> {
    match j {
        Some(v) => jget(v, key),
        None => None,
    }
}

/// The items of an array value.
pub open spec fn jarr_of(j: Option<JsonView>) -> Option<Seq<JsonView>> {
    match j {
        Some(JsonView::Array(items)) => Some(items),
        _ => None,
    }
}

/// A count read from a chunk: the member's unsigned value cut to 32 bits,
/// or 0 when it is missing.
pub open spec fn count_of(j: Option<JsonView>) -> u32 {
    match ju64_of(j) {
        Some(v) => v as u32,
        None => 0,
    }
}

fn get_opt<'a>(j: Option<&'a JsonValue>, key: &str) -> (r: Option<&'a JsonValue>)
    ensures
        match r {
            Some(v) => jat(match j { Some(x) => Some(jview(*x)), None => None }, key@) == Some(jview(*v)),
            None => jat(match j { Some(x) => Some(jview(*x)), None => None }, key@) is None,
        },
{
    match j {
        Some(v) => v.get(key),
        None => None,
    }
}

pub open spec fn oview(j: Option<&JsonValue>) -> Option<JsonView> {
    match j {
        Some(x) => Some(jview(*x)),
        None => None,
    }
}

fn str_opt<'a>(j: Option<&'a JsonValue>) -> (r: Option<&'a str>)
    ensures
        match r {
            Some(s) => jstr_of(oview(j)) == Some(s@),
            None => jstr_of(oview(j)) is None,
        },
{
    match j {
        Some(v) => v.as_str(),
        None => None,
    }
}

fn u64_opt(j: Option<&JsonValue>) -> (r: Option<u64>)
    ensures
        r == ju64_of(oview(j)),
{
    match j {
        Some(v) => v.as_u64(),
        None => None,
    }
}

fn count(j: Option<&JsonValue>) -> (r: u32)
    ensures
        r == count_of(oview(j)),
{
    match u64_opt(j) {
        Some(v) => v as u32,
        None => 0,
    }
}

fn arr_opt<'a>(j: Option<&'a JsonValue>) -> (r: Option<&'a Vec<JsonValue>>)
    ensures
        match r {
            Some(v) => jarr_of(oview(j)) == Some(jview_items(v@)),
            None => jarr_of(oview(j)) is None,
        },
{
    match j {
        Some(v) => v.as_array(),
        None => None,
    }
}

// ---------------------------------------------------------------------
// OpenAI chat completions
// ---------------------------------------------------------------------

/// A tool call as its pieces stream in: id, name, and the JSON text of its
/// arguments so far.
#[derive(Debug)]
pub struct OpenAiToolCall {
    pub id: String,
    pub name: String,
    pub arguments_json: String,
}

/// A tool call in progress, as text.
pub type CallView = (Seq<char>, Seq<char>, Seq<char>);

pub open spec fn calls_view(s: Seq<OpenAiToolCall>) -> Seq<CallView> {
    s.map_values(|c: OpenAiToolCall| (c.id@, c.name@, c.arguments_json@))
}

/// The calls with room made for `idx`: empty calls are added up to it.
pub open spec fn pad_calls(c: Seq<CallView>, idx: nat) -> Seq<CallView> {
    Seq::new(
        if idx < c.len() { c.len() } else { idx + 1 },
        |k: int| if k < c.len() { c[k] } else { (Seq::<char>::empty(), Seq::<char>::empty(), Seq::<char>::empty()) },
    )
}

/// The slot a tool-call delta names: its `index`, 0 when missing.
pub open spec fn delta_index(tc: JsonView) -> nat {
    (match ju64_of(jget(tc, "index"@)) {
        Some(v) => v,
        None => 0u64,
    }) as usize as nat
}

/// One tool-call delta applied: its id and name replace the slot's, and
/// its argument text is appended.
pub open spec fn apply_call_delta(c: Seq<CallView>, tc: JsonView) -> Seq<CallView> {
    let idx = delta_index(tc);
    let p = pad_calls(c, idx);
    let slot = p[idx as int];
    let f = jget(tc, "function"@);
    let id = match jstr_of(jget(tc, "id"@)) { Some(s) => s, None => slot.0 };
    let name = match jstr_of(jat(f, "name"@)) { Some(s) => s, None => slot.1 };
    let args = match jstr_of(jat(f, "arguments"@)) { Some(s) => slot.2 + s, None => slot.2 };
    p.update(idx as int, (id, name, args))
}

pub open spec fn apply_call_deltas(c: Seq<CallView>, tcs: Seq<JsonView>) -> Seq<CallView>
    decreases tcs.len(),
{
    if tcs.len() == 0 {
        c
    } else {
        apply_call_delta(apply_call_deltas(c, tcs.drop_last()), tcs.last())
    }
}

/// The calls after a chunk's delta: its `tool_calls`, in order.
pub open spec fn accumulated(c: Seq<CallView>, delta: JsonView) -> Seq<CallView> {
    match jarr_of(jget(delta, "tool_calls"@)) {
        Some(tcs) => apply_call_deltas(c, tcs),
        None => c,
    }
}

fn empty_call() -> (c: OpenAiToolCall)
    ensures
        c.id@ == Seq::<char>::empty(),
        c.name@ == Seq::<char>::empty(),
        c.arguments_json@ == Seq::<char>::empty(),
{
    OpenAiToolCall { id: String::new(), name: String::new(), arguments_json: String::new() }
}

fn apply_one_delta(tool_calls: &mut Vec<OpenAiToolCall>, tc: &JsonValue)
    ensures
        calls_view(final(tool_calls)@) == apply_call_delta(calls_view(old(tool_calls)@), jview(*tc)),
{
    let index: usize = match tc.get("index") {
        Some(v) => match v.as_u64() {
            Some(n) => n as usize,
            None => 0,
        },
        None => 0,
    };
    let ghost before = calls_view(tool_calls@);
    while tool_calls.len() <= index
        invariant
            before.len() <= tool_calls@.len() <= if index < before.len() { before.len() as int } else { index + 1 },
            calls_view(tool_calls@) == pad_calls(before, index as nat).subrange(0, tool_calls@.len() as int),
        decreases index + 1 - tool_calls@.len(),
    {
        let ghost n: int = tool_calls@.len() as int;
        tool_calls.push(empty_call());
        assert(calls_view(tool_calls@) =~= pad_calls(before, index as nat).subrange(0, n + 1 as int));
    }
    assert(calls_view(tool_calls@) =~= pad_calls(before, index as nat));
    let id_opt = tc.get("id");
    let f = tc.get("function");
    let name_opt = get_opt(f, "name");
    let args_opt = get_opt(f, "arguments");
    let mut slot = OpenAiToolCall {
        id: tool_calls[index].id.clone(),
        name: tool_calls[index].name.clone(),
        arguments_json: tool_calls[index].arguments_json.clone(),
    };
    if let Some(v) = id_opt {
        if let Some(s) = v.as_str() {
            slot.id = s.to_string();
        }
    }
    if let Some(s) = str_opt(name_opt) {
        slot.name = s.to_string();
    }
    if let Some(s) = str_opt(args_opt) {
        push_str(&mut slot.arguments_json, s);
    }
    let ghost padded = calls_view(tool_calls@);
    tool_calls.set(index, slot);
    assert(calls_view(tool_calls@) =~= apply_call_delta(before, jview(*tc)));
}

/// Takes in the tool-call pieces of a chunk's delta.
pub fn accumulate_tool_calls(tool_calls: &mut Vec<OpenAiToolCall>, delta: &JsonValue)
    ensures
        calls_view(final(tool_calls)@) == accumulated(calls_view(old(tool_calls)@), jview(*delta)),
{
    let tcs = match arr_opt(delta.get("tool_calls")) {
        Some(t) => t,
        None => return,
    };
    let ghost start = calls_view(tool_calls@);
    let ghost items = jview_items(tcs@);
    proof { lemma_jview_items(tcs@); }
    let mut i: usize = 0;
    while i < tcs.len()
        invariant
            i <= tcs.len(),
            items == jview_items(tcs@),
            items.len() == tcs@.len(),
            forall|k: int| 0 <= k < tcs@.len() ==> #[trigger] items[k] == jview(tcs@[k]),
            calls_view(tool_calls@) == apply_call_deltas(start, items.subrange(0, i as int)),
        decreases tcs.len() - i,
    {
        apply_one_delta(tool_calls, &tcs[i]);
        assert(items.subrange(0, i + 1).drop_last() =~= items.subrange(0, i as int));
        i = i + 1;
    }
    assert(items.subrange(0, tcs.len() as int) =~= items);
}

/// The calls that are complete enough to hand on, each with its slot: the
/// ones that have an id or a name.
pub open spec fn finished_calls(c: Seq<CallView>) -> Seq<(usize, Seq<char>, Seq<char>, Seq<char>)>
    decreases c.len(),
{
    if c.len() == 0 {
        Seq::empty()
    } else {
        let prev = finished_calls(c.drop_last());
        let l = c.last();
        if l.0.len() > 0 || l.1.len() > 0 {
            prev.push(((c.len() - 1) as usize, l.0, l.1, l.2))
        } else {
            prev
        }
    }
}

pub open spec fn taken_view(s: Seq<(usize, String, String, String)>) -> Seq<(usize, Seq<char>, Seq<char>, Seq<char>)> {
    s.map_values(|t: (usize, String, String, String)| (t.0, t.1@, t.2@, t.3@))
}

/// Hands on the calls that have an id or a name, with their slots and
/// argument texts, and empties the list.
pub fn take_tool_calls(tool_calls: &mut Vec<OpenAiToolCall>) -> (r: Vec<(usize, String, String, String)>)
    ensures
        final(tool_calls)@.len() == 0,
        taken_view(r@) == finished_calls(calls_view(old(tool_calls)@)),
{
    let mut calls: Vec<OpenAiToolCall> = Vec::new();
    calls.append(tool_calls);
    let ghost c = calls_view(calls@);
    let mut r: Vec<(usize, String, String, String)> = Vec::new();
    let mut i: usize = 0;
    while i < calls.len()
        invariant
            i <= calls.len(),
            c == calls_view(calls@),
            taken_view(r@) == finished_calls(c.subrange(0, i as int)),
        decreases calls.len() - i,
    {
        assert(c.subrange(0, i + 1).drop_last() =~= c.subrange(0, i as int));
        let call = &calls[i];
        let has_id = crate::text::to_chars(call.id.as_str()).len() > 0;
        let has_name = crate::text::to_chars(call.name.as_str()).len() > 0;
        if has_id || has_name {
            let ghost before = taken_view(r@);
            r.push((i, call.id.clone(), call.name.clone(), call.arguments_json.clone()));
            assert(taken_view(r@) =~= before.push((i, c[i as int].0, c[i as int].1, c[i as int].2)));
        }
        i = i + 1;
    }
    assert(c.subrange(0, calls.len() as int) =~= c);
    r
}

/// The events that end the finished calls.
pub open spec fn call_end_events(f: Seq<(usize, Seq<char>, Seq<char>, Seq<char>)>) -> Seq<EventView> {
    f.map_values(|t: (usize, Seq<char>, Seq<char>, Seq<char>)| EventView::ToolCallEnd { index: t.0, id: t.1, name: t.2, input: t.3 })
}

fn flush_calls(tool_calls: &mut Vec<OpenAiToolCall>, out: &mut Vec<StreamEvent>)
    ensures
        final(tool_calls)@.len() == 0,
        events_view(final(out)@) == events_view(old(out)@) + call_end_events(finished_calls(calls_view(old(tool_calls)@))),
{
    let taken = take_tool_calls(tool_calls);
    let ghost t = taken_view(taken@);
    let ghost base = events_view(out@);
    let mut i: usize = 0;
    while i < taken.len()
        invariant
            i <= taken.len(),
            t == taken_view(taken@),
            events_view(out@) == base + call_end_events(t.subrange(0, i as int)),
        decreases taken.len() - i,
    {
        let (index, id, name, input) = (taken[i].0, taken[i].1.clone(), taken[i].2.clone(), taken[i].3.clone());
        push_event(out, StreamEvent::ToolCallEnd { index, id, name, input });
        assert(call_end_events(t.subrange(0, i + 1)) =~= call_end_events(t.subrange(0, i as int)).push(
            EventView::ToolCallEnd { index: t[i as int].0, id: t[i as int].1, name: t[i as int].2, input: t[i as int].3 }));
        assert(base + call_end_events(t.subrange(0, i + 1)) =~= (base + call_end_events(t.subrange(0, i as int))).push(
            EventView::ToolCallEnd { index: t[i as int].0, id: t[i as int].1, name: t[i as int].2, input: t[i as int].3 }));
        i = i + 1;
    }
    assert(t.subrange(0, taken.len() as int) =~= t);
}

/// The stop reason for an OpenAI finish reason.
pub open spec fn openai_stop(f: Seq<char>) -> Option<StopReason> {
    if f == "stop"@ || f == "content_filter"@ {
        Some(StopReason::Stop)
    } else if f == "tool_calls"@ {
        Some(StopReason::ToolUse)
    } else if f == "length"@ {
        Some(StopReason::Length)
    } else {
        None
    }
}

/// The first choice of a chunk, when it has a non-empty `choices` list.
pub open spec fn first_choice(chunk: JsonView) -> Option<JsonView> {
    match jarr_of(jget(chunk, "choices"@)) {
        Some(cs) => if cs.len() > 0 { Some(cs[0]) } else { None },
        None => None,
    }
}

/// A delta's text as an event, when it has a non-empty one.
pub open spec fn nonempty_event(t: Option<Seq<char>>, thinking: bool) -> Seq<EventView> {
    match t {
        Some(s) => if s.len() > 0 {
            seq![if thinking { EventView::ThinkingDelta(s) } else { EventView::TextDelta(s) }]
        } else {
            Seq::empty()
        },
        None => Seq::empty(),
    }
}

/// The events of a chunk other than tool calls: its usage, its stop reason
/// when it has a finish reason, its text, and its reasoning, in that order.
pub open spec fn openai_chunk_events(chunk: JsonView) -> Seq<EventView> {
    let choice = first_choice(chunk).unwrap();
    let usage = jget(chunk, "usage"@);
    let delta = jget(choice, "delta"@);
    (match usage {
        Some(u) => seq![EventView::Usage(Usage {
            input_tokens: count_of(jget(u, "prompt_tokens"@)),
            output_tokens: count_of(jget(u, "completion_tokens"@)),
            cache_creation_input_tokens: None,
            cache_read_input_tokens: None,
        })],
        None => Seq::empty(),
    })
        + (match jstr_of(jget(choice, "finish_reason"@)) {
            Some(f) => seq![EventView::Stop(openai_stop(f))],
            None => Seq::empty(),
        })
        + (match delta {
            Some(d) => nonempty_event(jstr_of(jget(d, "content"@)), false)
                + nonempty_event(jstr_of(jget(d, "reasoning_content"@)), true)
                + nonempty_event(jstr_of(jget(d, "reasoning"@)), true),
            None => Seq::empty(),
        })
}

/// The events of a chunk other than tool calls; none when it has no
/// choices or nothing to report.
pub open spec fn openai_events(chunk: JsonView) -> Option<Seq<EventView>> {
    if first_choice(chunk) is None || openai_chunk_events(chunk).len() == 0 {
        None
    } else {
        Some(openai_chunk_events(chunk))
    }
}

fn first_of<'a>(chunk: &'a JsonValue) -> (r: Option<&'a JsonValue>)
    ensures
        oview(r) == first_choice(jview(*chunk)),
{
    match arr_opt(chunk.get("choices")) {
        Some(cs) => {
            proof { lemma_jview_items(cs@); }
            if cs.len() > 0 { Some(&cs[0]) } else { None }
        },
        None => None,
    }
}

fn push_nonempty(out: &mut Vec<StreamEvent>, t: Option<&str>, thinking: bool)
    ensures
        events_view(final(out)@) == events_view(old(out)@) + nonempty_event(crate::session_log::str_opt_view(t), thinking),
{
    let ghost before = events_view(out@);
    if let Some(s) = t {
        if crate::text::to_chars(s).len() > 0 {
            if thinking {
                push_event(out, StreamEvent::ThinkingDelta { thinking: s.to_string() });
            } else {
                push_event(out, StreamEvent::TextDelta { text: s.to_string() });
            }
        }
    }
    assert(events_view(out@) =~= before + nonempty_event(crate::session_log::str_opt_view(t), thinking));
}

fn opt_str_of<'a>(j: Option<&'a JsonValue>) -> (r: Option<&'a str>)
    ensures
        crate::session_log::str_opt_view(r) == jstr_of(oview(j)),
{
    str_opt(j)
}

/// The events of a chunk other than tool calls, which are gathered apart.
pub fn parse_openai_events(chunk: &JsonValue) -> (r: Option<Vec<StreamEvent>>)
    ensures
        match r {
            Some(v) => openai_events(jview(*chunk)) == Some(events_view(v@)),
            None => openai_events(jview(*chunk)) is None,
        },
{
    let choice = match first_of(chunk) {
        Some(c) => c,
        None => return None,
    };
    let mut events: Vec<StreamEvent> = Vec::new();
    let ghost e0 = events_view(events@);
    if let Some(u) = chunk.get("usage") {
        let usage = Usage {
            input_tokens: count(u.get("prompt_tokens")),
            output_tokens: count(u.get("completion_tokens")),
            cache_creation_input_tokens: None,
            cache_read_input_tokens: None,
        };
        push_event(&mut events, StreamEvent::Usage(usage));
    }
    let ghost e1 = events_view(events@);
    if let Some(f) = str_opt(choice.get("finish_reason")) {
        proof {
            reveal_strlit("stop");
            reveal_strlit("content_filter");
            reveal_strlit("tool_calls");
            reveal_strlit("length");
        }
        let reason = if str_eq(f, "stop") || str_eq(f, "content_filter") {
            Some(StopReason::Stop)
        } else if str_eq(f, "tool_calls") {
            Some(StopReason::ToolUse)
        } else if str_eq(f, "length") {
            Some(StopReason::Length)
        } else {
            None
        };
        push_event(&mut events, StreamEvent::Stop { reason });
    }
    let ghost e2 = events_view(events@);
    if let Some(d) = choice.get("delta") {
        push_nonempty(&mut events, opt_str_of(d.get("content")), false);
        push_nonempty(&mut events, opt_str_of(d.get("reasoning_content")), true);
        push_nonempty(&mut events, opt_str_of(d.get("reasoning")), true);
    }
    assert(events_view(events@) =~= openai_chunk_events(jview(*chunk)));
    if events.len() == 0 {
        None
    } else {
        Some(events)
    }
}

/// The state of an OpenAI-style stream: the tool calls gathered so far.
#[derive(Debug)]
pub struct OpenAiStream {
    pub tool_calls: Vec<OpenAiToolCall>,
}

/// What one `data:` payload of an OpenAI stream gives, and the tool calls
/// left gathered: `[DONE]` ends the calls and the stream; a chunk that did
/// not parse is skipped; a chunk's tool-call pieces are gathered, a
/// `tool_calls` finish reason ends the calls, and its other events follow.
pub open spec fn openai_data_step(
    calls: Seq<CallView>,
    data: Seq<char>,
    parsed: Option<JsonView>,
) -> (Seq<EventView>, Seq<CallView>) {
    if data == "[DONE]"@ {
        (call_end_events(finished_calls(calls)).push(EventView::Stop(None)), Seq::empty())
    } else {
        match parsed {
            None => (Seq::empty(), calls),
            Some(chunk) => {
                let gathered = match first_choice(chunk) {
                    Some(choice) => match jget(choice, "delta"@) {
                        Some(d) => accumulated(calls, d),
                        None => calls,
                    },
                    None => calls,
                };
                let ends = match first_choice(chunk) {
                    Some(choice) => jstr_of(jget(choice, "finish_reason"@)) == Some("tool_calls"@),
                    None => false,
                };
                let flushed = if ends { call_end_events(finished_calls(gathered)) } else { Seq::empty() };
                let left = if ends { Seq::empty() } else { gathered };
                let rest = match openai_events(chunk) {
                    Some(es) => es,
                    None => Seq::empty(),
                };
                (flushed + rest, left)
            },
        }
    }
}

impl OpenAiStream {
    pub fn new() -> (s: Self)
        ensures
            s.tool_calls@.len() == 0,
    {
        OpenAiStream { tool_calls: Vec::new() }
    }

    /// Takes in one `data:` payload and the value it parsed to, if it did.
    pub fn on_data(&mut self, data: &str, parsed: Option<&JsonValue>) -> (r: Vec<StreamEvent>)
        ensures
            (events_view(r@), calls_view(final(self).tool_calls@))
                == openai_data_step(calls_view(old(self).tool_calls@), data@, oview(parsed)),
    {
        let mut out: Vec<StreamEvent> = Vec::new();
        proof { reveal_strlit("[DONE]"); }
        if str_eq(data, "[DONE]") {
            flush_calls(&mut self.tool_calls, &mut out);
            push_event(&mut out, StreamEvent::Stop { reason: None });
            assert(calls_view(self.tool_calls@) =~= Seq::<CallView>::empty());
            return out;
        }
        let chunk = match parsed {
            Some(c) => c,
            None => {
                assert(events_view(out@) =~= Seq::<EventView>::empty());
                return out;
            },
        };
        let choice = first_of(chunk);
        if let Some(c) = choice {
            if let Some(d) = c.get("delta") {
                accumulate_tool_calls(&mut self.tool_calls, d);
            }
        }
        let ends = match choice {
            Some(c) => match str_opt(c.get("finish_reason")) {
                Some(f) => { proof { reveal_strlit("tool_calls"); } str_eq(f, "tool_calls") },
                None => false,
            },
            None => false,
        };
        if ends {
            flush_calls(&mut self.tool_calls, &mut out);
            assert(calls_view(self.tool_calls@) =~= Seq::<CallView>::empty());
        }
        let ghost flushed = events_view(out@);
        if let Some(events) = parse_openai_events(chunk) {
            let mut events = events;
            out.append(&mut events);
            assert(events_view(out@) =~= flushed + openai_events(jview(*chunk)).unwrap());
        }
        assert(events_view(out@) =~= openai_data_step(calls_view(old(self).tool_calls@), data@, oview(parsed)).0);
        out
    }

    /// An `error:` line of the stream.
    pub fn on_error(&mut self, message: &str) -> (r: Vec<StreamEvent>)
        ensures
            events_view(r@) == seq![EventView::Error(message@)],
            calls_view(final(self).tool_calls@) == calls_view(old(self).tool_calls@),
    {
        let mut out: Vec<StreamEvent> = Vec::new();
        push_event(&mut out, StreamEvent::Error { message: message.to_string() });
        out
    }

    /// The stream ended, or broke off: the calls gathered so far end.
    pub fn finish(&mut self) -> (r: Vec<StreamEvent>)
        ensures
            events_view(r@) == call_end_events(finished_calls(calls_view(old(self).tool_calls@))),
            final(self).tool_calls@.len() == 0,
    {
        let mut out: Vec<StreamEvent> = Vec::new();
        flush_calls(&mut self.tool_calls, &mut out);
        assert(events_view(out@) =~= Seq::<EventView>::empty() + call_end_events(finished_calls(calls_view(old(self).tool_calls@))));
        out
    }
}

// ---------------------------------------------------------------------
// Anthropic messages
// ---------------------------------------------------------------------

/// `a + b` modulo 2^32.
pub open spec fn wrap_add_u32(a: u32, b: u32) -> u32 {
    if a + b > u32::MAX { (a + b - 0x1_0000_0000) as u32 } else { (a + b) as u32 }
}

/// An optional count cut to 32 bits.
pub open spec fn count_opt(j: Option<JsonView>) -> Option<u32> {
    match ju64_of(j) {
        Some(v) => Some(v as u32),
        None => None,
    }
}

/// The state of an Anthropic stream, as mathematical values.
pub struct AnthropicState {
    pub calls: Seq<CallView>,
    pub block_type: Option<Seq<char>>,
    pub block_index: usize,
    pub usage: Option<Usage>,
}

/// The state of an Anthropic stream: the tool calls by block, the type and
/// index of the current content block, and the usage reported when the
/// message started.
#[derive(Debug)]
pub struct AnthropicStream {
    pub tool_calls: Vec<OpenAiToolCall>,
    pub current_block_type: Option<String>,
    pub current_block_index: usize,
    pub usage: Option<Usage>,
}

impl View for AnthropicStream {
    type V = AnthropicState;

    open spec fn view(&self) -> AnthropicState {
        AnthropicState {
            calls: calls_view(self.tool_calls@),
            block_type: crate::prompt::opt_view(self.current_block_type),
            block_index: self.current_block_index,
            usage: self.usage,
        }
    }
}

/// The stop reason for an Anthropic stop reason.
pub open spec fn anthropic_stop(r: Option<Seq<char>>) -> Option<StopReason> {
    match r {
        Some(s) => if s == "end_turn"@ || s == "stop"@ {
            Some(StopReason::Stop)
        } else if s == "tool_use"@ {
            Some(StopReason::ToolUse)
        } else if s == "max_tokens"@ {
            Some(StopReason::Length)
        } else {
            None
        },
        None => None,
    }
}

/// A text that may be missing, read as empty.
pub open spec fn or_empty(t: Option<Seq<char>>) -> Seq<char> {
    match t {
        Some(s) => s,
        None => Seq::empty(),
    }
}

/// What one event of an Anthropic stream gives, and the state after it:
/// the message start records the usage; a tool-use block start opens a
/// call; deltas give text, thinking, or a piece of a call's input; the end
/// of a tool-use block ends its call; the message delta adds the output
/// tokens, reports the usage and the stop reason; an error event gives its
/// message, or the raw data when it did not parse.
pub open spec fn anthropic_step(
    st: AnthropicState,
    event_type: Seq<char>,
    data: Seq<char>,
    parsed: Option<JsonView>,
) -> (Seq<EventView>, AnthropicState) {
    if event_type == "message_start"@ {
        (Seq::empty(), on_message_start(st, parsed))
    } else if event_type == "content_block_start"@ {
        on_block_start(st, parsed)
    } else if event_type == "content_block_delta"@ {
        on_block_delta(st, parsed)
    } else if event_type == "content_block_stop"@ {
        (on_block_stop(st), st)
    } else if event_type == "message_delta"@ {
        on_message_delta(st, parsed)
    } else if event_type == "error"@ {
        (seq![EventView::Error(match jstr_of(jat(jat(parsed, "error"@), "message"@)) {
            Some(m) => m,
            None => data,
        })], st)
    } else {
        (Seq::empty(), st)
    }
}

/// The message start records the usage it reports.
pub open spec fn on_message_start(st: AnthropicState, parsed: Option<JsonView>) -> AnthropicState {
    match jat(jat(parsed, "message"@), "usage"@) {
        Some(u) => AnthropicState {
            usage: Some(Usage {
                input_tokens: count_of(jget(u, "input_tokens"@)),
                output_tokens: count_of(jget(u, "output_tokens"@)),
                cache_creation_input_tokens: count_opt(jget(u, "cache_creation_input_tokens"@)),
                cache_read_input_tokens: count_opt(jget(u, "cache_read_input_tokens"@)),
            }),
            ..st
        },
        None => st,
    }
}

/// A block start sets the current block; a tool-use block opens a call in
/// its slot.
pub open spec fn on_block_start(st: AnthropicState, parsed: Option<JsonView>) -> (Seq<EventView>, AnthropicState) {
    match parsed {
        None => (Seq::empty(), st),
        Some(block) => {
            let index = (match ju64_of(jget(block, "index"@)) { Some(v) => v, None => 0u64 }) as usize;
            match jget(block, "content_block"@) {
                None => (Seq::empty(), AnthropicState { block_index: index, ..st }),
                Some(cb) => {
                    let t = jstr_of(jget(cb, "type"@));
                    if t == Some("tool_use"@) {
                        let id = or_empty(jstr_of(jget(cb, "id"@)));
                        let name = or_empty(jstr_of(jget(cb, "name"@)));
                        (
                            seq![EventView::ToolCallStart { id: id, name: name, index: index }],
                            AnthropicState {
                                calls: pad_calls(st.calls, index as nat).update(index as int, (id, name, Seq::empty())),
                                block_type: t,
                                block_index: index,
                                ..st
                            },
                        )
                    } else {
                        (Seq::empty(), AnthropicState { block_type: t, block_index: index, ..st })
                    }
                },
            }
        },
    }
}

/// A block delta gives text, thinking, or a piece of a call's input, which
/// is added to the call when its slot exists.
pub open spec fn on_block_delta(st: AnthropicState, parsed: Option<JsonView>) -> (Seq<EventView>, AnthropicState) {
    match parsed {
        None => (Seq::empty(), st),
        Some(delta) => match jget(delta, "delta"@) {
            None => (Seq::empty(), st),
            Some(d) => {
                let dtype = or_empty(jstr_of(jget(d, "type"@)));
                if dtype == "text_delta"@ {
                    (seq![EventView::TextDelta(or_empty(jstr_of(jget(d, "text"@))))], st)
                } else if dtype == "thinking_delta"@ {
                    (seq![EventView::ThinkingDelta(or_empty(jstr_of(jget(d, "thinking"@))))], st)
                } else if dtype == "input_json_delta"@ {
                    let input = or_empty(jstr_of(jget(d, "partial_json"@)));
                    let idx = (match ju64_of(jget(delta, "index"@)) { Some(v) => v, None => 0u64 }) as usize;
                    (
                        seq![EventView::ToolCallDelta { index: idx, input: input }],
                        if idx < st.calls.len() {
                            AnthropicState {
                                calls: st.calls.update(idx as int, (st.calls[idx as int].0, st.calls[idx as int].1, st.calls[idx as int].2 + input)),
                                ..st
                            }
                        } else {
                            st
                        },
                    )
                } else {
                    (Seq::empty(), st)
                }
            },
        },
    }
}

/// The end of a tool-use block ends the call in the current slot.
pub open spec fn on_block_stop(st: AnthropicState) -> Seq<EventView> {
    if st.block_type == Some("tool_use"@) {
        let c = if st.block_index < st.calls.len() {
            st.calls[st.block_index as int]
        } else {
            (Seq::<char>::empty(), Seq::<char>::empty(), Seq::<char>::empty())
        };
        seq![EventView::ToolCallEnd { index: st.block_index, id: c.0, name: c.1, input: c.2 }]
    } else {
        Seq::empty()
    }
}

/// The message delta adds its output tokens to the recorded usage, reports
/// that usage once, and gives the stop reason.
pub open spec fn on_message_delta(st: AnthropicState, parsed: Option<JsonView>) -> (Seq<EventView>, AnthropicState) {
    match parsed {
        None => (Seq::empty(), st),
        Some(delta) => {
            let usage = match (jget(delta, "usage"@), st.usage) {
                (Some(u), Some(us)) => Some(Usage {
                    output_tokens: wrap_add_u32(us.output_tokens, count_of(jget(u, "output_tokens"@))),
                    ..us
                }),
                _ => st.usage,
            };
            let reason = anthropic_stop(jstr_of(jat(jget(delta, "delta"@), "stop_reason"@)));
            (
                (match usage { Some(u) => seq![EventView::Usage(u)], None => Seq::empty() }).push(EventView::Stop(reason)),
                AnthropicState { usage: None, ..st },
            )
        },
    }
}

fn str_or_empty(j: Option<&JsonValue>) -> (r: String)
    ensures
        r@ == or_empty(jstr_of(oview(j))),
{
    match str_opt(j) {
        Some(s) => s.to_string(),
        None => String::new(),
    }
}

fn u32_opt(j: Option<&JsonValue>) -> (r: Option<u32>)
    ensures
        r == count_opt(oview(j)),
{
    match u64_opt(j) {
        Some(v) => Some(v as u32),
        None => None,
    }
}

fn index_of_u64(j: Option<&JsonValue>) -> (r: usize)
    ensures
        r == (match ju64_of(oview(j)) { Some(v) => v, None => 0u64 }) as usize,
{
    match u64_opt(j) {
        Some(v) => v as usize,
        None => 0,
    }
}

impl AnthropicStream {
    pub fn new() -> (s: Self)
        ensures
            s@.calls.len() == 0,
            s@.block_type is None,
            s@.block_index == 0,
            s@.usage is None,
    {
        AnthropicStream { tool_calls: Vec::new(), current_block_type: None, current_block_index: 0, usage: None }
    }

    /// Takes in one event of the stream: its type, its data, and the value
    /// the data parsed to, if it did.
    pub fn on_event(&mut self, event_type: &str, data: &str, parsed: Option<&JsonValue>) -> (r: Vec<StreamEvent>)
        ensures
            (events_view(r@), final(self)@) == anthropic_step(old(self)@, event_type@, data@, oview(parsed)),
    {
        proof {
            reveal_strlit("message_start");
            reveal_strlit("content_block_start");
            reveal_strlit("content_block_delta");
            reveal_strlit("content_block_stop");
            reveal_strlit("message_delta");
            reveal_strlit("error");
        }
        if str_eq(event_type, "message_start") {
            self.message_start(parsed);
            let out: Vec<StreamEvent> = Vec::new();
            assert(events_view(out@) =~= Seq::<EventView>::empty());
            out
        } else if str_eq(event_type, "content_block_start") {
            self.block_start(parsed)
        } else if str_eq(event_type, "content_block_delta") {
            self.block_delta(parsed)
        } else if str_eq(event_type, "content_block_stop") {
            self.block_stop()
        } else if str_eq(event_type, "message_delta") {
            self.message_delta(parsed)
        } else if str_eq(event_type, "error") {
            let message = match str_opt(get_opt(get_opt(parsed, "error"), "message")) {
                Some(m) => m.to_string(),
                None => data.to_string(),
            };
            let mut out: Vec<StreamEvent> = Vec::new();
            push_event(&mut out, StreamEvent::Error { message });
            assert(events_view(out@) =~= seq![EventView::Error(message@)]);
            out
        } else {
            let out: Vec<StreamEvent> = Vec::new();
            assert(events_view(out@) =~= Seq::<EventView>::empty());
            out
        }
    }

    fn message_start(&mut self, parsed: Option<&JsonValue>)
        ensures
            final(self)@ == on_message_start(old(self)@, oview(parsed)),
    {
        if let Some(u) = get_opt(get_opt(parsed, "message"), "usage") {
            self.usage = Some(Usage {
                input_tokens: count(u.get("input_tokens")),
                output_tokens: count(u.get("output_tokens")),
                cache_creation_input_tokens: u32_opt(u.get("cache_creation_input_tokens")),
                cache_read_input_tokens: u32_opt(u.get("cache_read_input_tokens")),
            });
        }
    }

    fn block_start(&mut self, parsed: Option<&JsonValue>) -> (r: Vec<StreamEvent>)
        ensures
            (events_view(r@), final(self)@) == on_block_start(old(self)@, oview(parsed)),
    {
        proof { reveal_strlit("tool_use"); }
        let mut out: Vec<StreamEvent> = Vec::new();
        if let Some(block) = parsed {
            let index = index_of_u64(block.get("index"));
            self.current_block_index = index;
            if let Some(cb) = block.get("content_block") {
                let t = str_opt(cb.get("type"));
                self.current_block_type = match t {
                    Some(x) => Some(x.to_string()),
                    None => None,
                };
                let is_tool = match t {
                    Some(x) => str_eq(x, "tool_use"),
                    None => false,
                };
                if is_tool {
                    let id = str_or_empty(cb.get("id"));
                    let name = str_or_empty(cb.get("name"));
                    let ghost before = calls_view(self.tool_calls@);
                    let ghost bt = self.current_block_type;
                    let ghost us = self.usage;
                    while self.tool_calls.len() <= index
                        invariant
                            self.current_block_type == bt,
                            self.current_block_index == index,
                            self.usage == us,
                            before.len() <= self.tool_calls@.len() <= if index < before.len() { before.len() as int } else { index + 1 },
                            calls_view(self.tool_calls@) == pad_calls(before, index as nat).subrange(0, self.tool_calls@.len() as int),
                        decreases index + 1 - self.tool_calls@.len(),
                    {
                        let ghost n: int = self.tool_calls@.len() as int;
                        self.tool_calls.push(empty_call());
                        assert(calls_view(self.tool_calls@) =~= pad_calls(before, index as nat).subrange(0, n + 1 as int));
                    }
                    assert(calls_view(self.tool_calls@) =~= pad_calls(before, index as nat));
                    let ghost id_v = id@;
                    let ghost name_v = name@;
                    let e = StreamEvent::ToolCallStart { id: id.clone(), name: name.clone(), index };
                    self.tool_calls.set(index, OpenAiToolCall { id, name, arguments_json: String::new() });
                    push_event(&mut out, e);
                    assert(calls_view(self.tool_calls@) =~= pad_calls(before, index as nat).update(index as int, (id_v, name_v, Seq::empty())));
                    assert(events_view(out@) =~= seq![EventView::ToolCallStart { id: id_v, name: name_v, index: index }]);
                    return out;
                }
            }
        }
        assert(events_view(out@) =~= Seq::<EventView>::empty());
        out
    }

    fn block_delta(&mut self, parsed: Option<&JsonValue>) -> (r: Vec<StreamEvent>)
        ensures
            (events_view(r@), final(self)@) == on_block_delta(old(self)@, oview(parsed)),
    {
        proof {
            reveal_strlit("text_delta");
            reveal_strlit("thinking_delta");
            reveal_strlit("input_json_delta");
        }
        let mut out: Vec<StreamEvent> = Vec::new();
        if let Some(delta) = parsed {
            if let Some(d) = delta.get("delta") {
                let dtype = str_or_empty(d.get("type"));
                if str_eq(dtype.as_str(), "text_delta") {
                    let text = str_or_empty(d.get("text"));
                    let ghost tv = text@;
                    push_event(&mut out, StreamEvent::TextDelta { text });
                    assert(events_view(out@) =~= seq![EventView::TextDelta(tv)]);
                    return out;
                } else if str_eq(dtype.as_str(), "thinking_delta") {
                    let thinking = str_or_empty(d.get("thinking"));
                    let ghost tv = thinking@;
                    push_event(&mut out, StreamEvent::ThinkingDelta { thinking });
                    assert(events_view(out@) =~= seq![EventView::ThinkingDelta(tv)]);
                    return out;
                } else if str_eq(dtype.as_str(), "input_json_delta") {
                    let input = str_or_empty(d.get("partial_json"));
                    let idx = index_of_u64(delta.get("index"));
                    if idx < self.tool_calls.len() {
                        let ghost before = calls_view(self.tool_calls@);
                        let mut args = self.tool_calls[idx].arguments_json.clone();
                        push_str(&mut args, input.as_str());
                        let slot = OpenAiToolCall {
                            id: self.tool_calls[idx].id.clone(),
                            name: self.tool_calls[idx].name.clone(),
                            arguments_json: args,
                        };
                        self.tool_calls.set(idx, slot);
                        assert(calls_view(self.tool_calls@) =~= before.update(idx as int, (before[idx as int].0, before[idx as int].1, before[idx as int].2 + input@)));
                    }
                    let ghost iv = input@;
                    push_event(&mut out, StreamEvent::ToolCallDelta { index: idx, input });
                    assert(events_view(out@) =~= seq![EventView::ToolCallDelta { index: idx, input: iv }]);
                    return out;
                }
            }
        }
        assert(events_view(out@) =~= Seq::<EventView>::empty());
        out
    }

    fn block_stop(&mut self) -> (r: Vec<StreamEvent>)
        ensures
            events_view(r@) == on_block_stop(old(self)@),
            final(self)@ == old(self)@,
    {
        proof { reveal_strlit("tool_use"); }
        let mut out: Vec<StreamEvent> = Vec::new();
        let is_tool = match &self.current_block_type {
            Some(t) => str_eq(t.as_str(), "tool_use"),
            None => false,
        };
        if is_tool {
            let index = self.current_block_index;
            let (id, name, input) = if index < self.tool_calls.len() {
                (self.tool_calls[index].id.clone(), self.tool_calls[index].name.clone(), self.tool_calls[index].arguments_json.clone())
            } else {
                (String::new(), String::new(), String::new())
            };
            let ghost v = (id@, name@, input@);
            push_event(&mut out, StreamEvent::ToolCallEnd { index, id, name, input });
            assert(events_view(out@) =~= seq![EventView::ToolCallEnd { index: index, id: v.0, name: v.1, input: v.2 }]);
            return out;
        }
        assert(events_view(out@) =~= Seq::<EventView>::empty());
        out
    }

    fn message_delta(&mut self, parsed: Option<&JsonValue>) -> (r: Vec<StreamEvent>)
        ensures
            (events_view(r@), final(self)@) == on_message_delta(old(self)@, oview(parsed)),
    {
        let mut out: Vec<StreamEvent> = Vec::new();
        if let Some(delta) = parsed {
            if let Some(u) = delta.get("usage") {
                let out_tokens = count(u.get("output_tokens"));
                if let Some(us) = self.usage {
                    self.usage = Some(Usage { output_tokens: us.output_tokens.wrapping_add(out_tokens), ..us });
                }
            }
            let stop = str_opt(get_opt(delta.get("delta"), "stop_reason"));
            proof {
                reveal_strlit("end_turn");
                reveal_strlit("stop");
                reveal_strlit("tool_use");
                reveal_strlit("max_tokens");
            }
            let reason = match stop {
                Some(x) => if str_eq(x, "end_turn") || str_eq(x, "stop") {
                    Some(StopReason::Stop)
                } else if str_eq(x, "tool_use") {
                    Some(StopReason::ToolUse)
                } else if str_eq(x, "max_tokens") {
                    Some(StopReason::Length)
                } else {
                    None
                },
                None => None,
            };
            if let Some(u) = self.usage {
                push_event(&mut out, StreamEvent::Usage(u));
            }
            self.usage = None;
            push_event(&mut out, StreamEvent::Stop { reason });
            let ghost expect = on_message_delta(old(self)@, oview(parsed));
            assert(events_view(out@) =~= expect.0);
            return out;
        }
        assert(events_view(out@) =~= Seq::<EventView>::empty());
        out
    }

}

// ---------------------------------------------------------------------
// Gemini
// ---------------------------------------------------------------------

/// The stop reason for a Gemini finish reason.
pub open spec fn gemini_stop(r: Seq<char>) -> Option<StopReason> {
    if r == "STOP"@ || r == "SAFETY"@ {
        Some(StopReason::Stop)
    } else if r == "MAX_TOKENS"@ {
        Some(StopReason::Length)
    } else {
        None
    }
}

/// The id given to the `n`th function call of a response.
pub open spec fn gemini_call_id(n: nat) -> Seq<char> {
    "gc_"@ + dec(n)
}

/// The events of one part and the calls after it: its text, its text
/// again as thinking when it is a thought, and a function call, which is
/// numbered and complete at once.
pub open spec fn gemini_part_step(calls: Seq<CallView>, part: JsonView) -> (Seq<EventView>, Seq<CallView>) {
    let text = jstr_of(jget(part, "text"@));
    let text_ev = match text { Some(t) => seq![EventView::TextDelta(t)], None => Seq::empty() };
    let thought_ev = if jbool_of(jget(part, "thought"@)) == Some(true) {
        match text { Some(t) => seq![EventView::ThinkingDelta(t)], None => Seq::empty() }
    } else {
        Seq::empty()
    };
    match jget(part, "functionCall"@) {
        Some(fc) => {
            let name = or_empty(jstr_of(jget(fc, "name"@)));
            let args = match jget(fc, "args"@) { Some(a) => jtext(a), None => "null"@ };
            let id = gemini_call_id(calls.len());
            (
                text_ev + thought_ev + seq![EventView::ToolCallEnd { index: calls.len() as usize, id: id, name: name, input: args }],
                calls.push((id, name, args)),
            )
        },
        None => (text_ev + thought_ev, calls),
    }
}

pub open spec fn gemini_parts_step(calls: Seq<CallView>, parts: Seq<JsonView>) -> (Seq<EventView>, Seq<CallView>)
    decreases parts.len(),
{
    if parts.len() == 0 {
        (Seq::empty(), calls)
    } else {
        let prev = gemini_parts_step(calls, parts.drop_last());
        let last = gemini_part_step(prev.1, parts.last());
        (prev.0 + last.0, last.1)
    }
}

/// What a Gemini chunk gives and the calls after it: its stop reason when
/// it has a known finish reason, its usage, and the events of its first
/// candidate's parts; nothing when it has no candidates.
pub open spec fn gemini_chunk_step(calls: Seq<CallView>, chunk: JsonView) -> (Option<Seq<EventView>>, Seq<CallView>) {
    match jarr_of(jget(chunk, "candidates"@)) {
        Some(cands) => if cands.len() == 0 {
            (None, calls)
        } else {
            let cand = cands[0];
            let stop_ev = match jstr_of(jget(cand, "finishReason"@)) {
                Some(r) => match gemini_stop(r) { Some(s) => seq![EventView::Stop(Some(s))], None => Seq::empty() },
                None => Seq::empty(),
            };
            let usage_ev = match jget(chunk, "usageMetadata"@) {
                Some(u) => seq![EventView::Usage(Usage {
                    input_tokens: count_of(jget(u, "promptTokenCount"@)),
                    output_tokens: count_of(jget(u, "candidatesTokenCount"@)),
                    cache_creation_input_tokens: None,
                    cache_read_input_tokens: count_opt(jget(u, "cachedContentTokenCount"@)),
                })],
                None => Seq::empty(),
            };
            let parts = match jarr_of(jat(jget(cand, "content"@), "parts"@)) { Some(p) => p, None => Seq::empty() };
            let ps = gemini_parts_step(calls, parts);
            let events = stop_ev + usage_ev + ps.0;
            (if events.len() == 0 { None } else { Some(events) }, ps.1)
        },
        None => (None, calls),
    }
}

fn gemini_part(calls: &mut Vec<OpenAiToolCall>, part: &JsonValue, out: &mut Vec<StreamEvent>)
    ensures
        events_view(final(out)@) == events_view(old(out)@) + gemini_part_step(calls_view(old(calls)@), jview(*part)).0,
        calls_view(final(calls)@) == gemini_part_step(calls_view(old(calls)@), jview(*part)).1,
{
    let ghost base = events_view(out@);
    let text = str_opt(part.get("text"));
    if let Some(t) = text {
        push_event(out, StreamEvent::TextDelta { text: t.to_string() });
    }
    let thought = match part.get("thought") {
        Some(v) => v.as_bool(),
        None => None,
    };
    if thought == Some(true) {
        if let Some(t) = text {
            push_event(out, StreamEvent::ThinkingDelta { thinking: t.to_string() });
        }
    }
    let ghost before_call = events_view(out@);
    let ghost expect = gemini_part_step(calls_view(old(calls)@), jview(*part));
    if let Some(fc) = part.get("functionCall") {
        let name = str_or_empty(fc.get("name"));
        let args = match fc.get("args") {
            Some(a) => a.to_text(),
            None => { proof { reveal_strlit("null"); } "null".to_string() },
        };
        let n = calls.len();
        let mut id = String::new();
        proof { reveal_strlit("gc_"); }
        push_str(&mut id, "gc_");
        push_dec(&mut id, n as u64);
        let ghost before = calls_view(calls@);
        calls.push(OpenAiToolCall { id: id.clone(), name: name.clone(), arguments_json: args.clone() });
        assert(calls_view(calls@) =~= before.push((id@, name@, args@)));
        push_event(out, StreamEvent::ToolCallEnd { index: n, id, name, input: args });
    }
    assert(events_view(out@) =~= base + expect.0);
}

/// Takes in a Gemini chunk: its events, if any, with its function calls
/// numbered after the calls gathered so far.
pub fn parse_gemini_chunk(chunk: &JsonValue, tool_calls: &mut Vec<OpenAiToolCall>) -> (r: Option<Vec<StreamEvent>>)
    ensures
        match r {
            Some(v) => gemini_chunk_step(calls_view(old(tool_calls)@), jview(*chunk)).0 == Some(events_view(v@)),
            None => gemini_chunk_step(calls_view(old(tool_calls)@), jview(*chunk)).0 is None,
        },
        calls_view(final(tool_calls)@) == gemini_chunk_step(calls_view(old(tool_calls)@), jview(*chunk)).1,
{
    let cands = match arr_opt(chunk.get("candidates")) {
        Some(c) => c,
        None => return None,
    };
    proof { lemma_jview_items(cands@); }
    if cands.len() == 0 {
        return None;
    }
    let cand = &cands[0];
    let mut out: Vec<StreamEvent> = Vec::new();
    if let Some(r) = str_opt(cand.get("finishReason")) {
        proof {
            reveal_strlit("STOP");
            reveal_strlit("SAFETY");
            reveal_strlit("MAX_TOKENS");
        }
        let stop = if str_eq(r, "STOP") || str_eq(r, "SAFETY") {
            Some(StopReason::Stop)
        } else if str_eq(r, "MAX_TOKENS") {
            Some(StopReason::Length)
        } else {
            None
        };
        if let Some(st) = stop {
            push_event(&mut out, StreamEvent::Stop { reason: Some(st) });
        }
    }
    if let Some(u) = chunk.get("usageMetadata") {
        push_event(&mut out, StreamEvent::Usage(Usage {
            input_tokens: count(u.get("promptTokenCount")),
            output_tokens: count(u.get("candidatesTokenCount")),
            cache_creation_input_tokens: None,
            cache_read_input_tokens: u32_opt(u.get("cachedContentTokenCount")),
        }));
    }
    let ghost head = events_view(out@);
    let ghost start = calls_view(tool_calls@);
    let empty: Vec<JsonValue> = Vec::new();
    let parts: &Vec<JsonValue> = match arr_opt(get_opt(cand.get("content"), "parts")) {
        Some(p) => p,
        None => &empty,
    };
    proof { lemma_jview_items(parts@); }
    let ghost pv = jview_items(parts@);
    assert(pv == (match jarr_of(jat(jget(jview(*cand), "content"@), "parts"@)) { Some(p) => p, None => Seq::<JsonView>::empty() }));
    let mut i: usize = 0;
    while i < parts.len()
        invariant
            i <= parts.len(),
            pv == jview_items(parts@),
            pv.len() == parts@.len(),
            forall|k: int| 0 <= k < parts@.len() ==> #[trigger] pv[k] == jview(parts@[k]),
            events_view(out@) == head + gemini_parts_step(start, pv.subrange(0, i as int)).0,
            calls_view(tool_calls@) == gemini_parts_step(start, pv.subrange(0, i as int)).1,
        decreases parts.len() - i,
    {
        assert(pv.subrange(0, i + 1).drop_last() =~= pv.subrange(0, i as int));
        let ghost prev = gemini_parts_step(start, pv.subrange(0, i as int));
        gemini_part(tool_calls, &parts[i], &mut out);
        assert(head + prev.0 + gemini_part_step(prev.1, pv[i as int]).0 =~= head + (prev.0 + gemini_part_step(prev.1, pv[i as int]).0));
        i = i + 1;
    }
    assert(pv.subrange(0, parts.len() as int) =~= pv);
    let ghost expect = gemini_chunk_step(start, jview(*chunk));
    if out.len() == 0 {
        None
    } else {
        Some(out)
    }
}

/// Every gathered call ended, numbered by its place.
pub open spec fn all_call_ends(calls: Seq<CallView>) -> Seq<EventView> {
    Seq::new(calls.len(), |i: int| EventView::ToolCallEnd { index: i as usize, id: calls[i].0, name: calls[i].1, input: calls[i].2 })
}

/// The state of a Gemini stream: the function calls seen so far.
#[derive(Debug)]
pub struct GeminiStream {
    pub tool_calls: Vec<OpenAiToolCall>,
}

/// What one `data:` payload of a Gemini stream gives, and the calls after
/// it: `[DONE]` ends every call seen and the stream; a payload that did
/// not parse is skipped; a chunk gives its events.
pub open spec fn gemini_data_step(calls: Seq<CallView>, data: Seq<char>, parsed: Option<JsonView>) -> (Seq<EventView>, Seq<CallView>) {
    if data == "[DONE]"@ {
        (all_call_ends(calls).push(EventView::Stop(None)), Seq::empty())
    } else {
        match parsed {
            None => (Seq::empty(), calls),
            Some(chunk) => {
                let st = gemini_chunk_step(calls, chunk);
                (match st.0 { Some(es) => es, None => Seq::empty() }, st.1)
            },
        }
    }
}

impl GeminiStream {
    pub fn new() -> (s: Self)
        ensures
            s.tool_calls@.len() == 0,
    {
        GeminiStream { tool_calls: Vec::new() }
    }

    /// Takes in one `data:` payload and the value it parsed to, if it did.
    pub fn on_data(&mut self, data: &str, parsed: Option<&JsonValue>) -> (r: Vec<StreamEvent>)
        ensures
            (events_view(r@), calls_view(final(self).tool_calls@))
                == gemini_data_step(calls_view(old(self).tool_calls@), data@, oview(parsed)),
    {
        let mut out: Vec<StreamEvent> = Vec::new();
        proof { reveal_strlit("[DONE]"); }
        if str_eq(data, "[DONE]") {
            let ghost c = calls_view(self.tool_calls@);
            let mut i: usize = 0;
            while i < self.tool_calls.len()
                invariant
                    i <= self.tool_calls.len(),
                    c == calls_view(self.tool_calls@),
                    events_view(out@) == all_call_ends(c).subrange(0, i as int),
                decreases self.tool_calls.len() - i,
            {
                let e = StreamEvent::ToolCallEnd {
                    index: i,
                    id: self.tool_calls[i].id.clone(),
                    name: self.tool_calls[i].name.clone(),
                    input: self.tool_calls[i].arguments_json.clone(),
                };
                push_event(&mut out, e);
                assert(events_view(out@) =~= all_call_ends(c).subrange(0, i + 1));
                i = i + 1;
            }
            assert(all_call_ends(c).subrange(0, c.len() as int) =~= all_call_ends(c));
            push_event(&mut out, StreamEvent::Stop { reason: None });
            self.tool_calls.clear();
            assert(calls_view(self.tool_calls@) =~= Seq::<CallView>::empty());
            return out;
        }
        match parsed {
            None => {
                assert(events_view(out@) =~= Seq::<EventView>::empty());
                out
            },
            Some(chunk) => match parse_gemini_chunk(chunk, &mut self.tool_calls) {
                Some(events) => events,
                None => {
                    assert(events_view(out@) =~= Seq::<EventView>::empty());
                    out
                },
            },
        }
    }
}

// ---------------------------------------------------------------------
// Line-based streams: Azure, OpenAI Responses, Vertex, Bedrock
// ---------------------------------------------------------------------

/// The payload of a `data: ` line.
pub open spec fn payload_of(line: Seq<char>) -> Option<Seq<char>> {
    if crate::text::has_prefix(line, "data: "@) { Some(line.skip(6)) } else { None }
}

/// The payload of a `data: ` line, if it is one.
pub fn data_payload(line: &str) -> (r: Option<String>)
    ensures
        match r {
            Some(p) => payload_of(line@) == Some(p@),
            None => payload_of(line@) is None,
        },
{
    let cs = crate::text::to_chars(line);
    proof { reveal_strlit("data: "); }
    if crate::text::starts_with_at(cs.as_slice(), 0, "data: ") {
        assert(cs@.skip(0) =~= cs@);
        let rest = crate::text::sub_chars(cs.as_slice(), 6, cs.len());
        assert(cs@.subrange(6, cs@.len() as int) =~= cs@.skip(6));
        Some(crate::text::from_chars(rest.as_slice()))
    } else {
        assert(cs@.skip(0) =~= cs@);
        None
    }
}

/// What a payload of an Azure or OpenAI Responses stream gives, and
/// whether the stream ends there: `[DONE]` stops it; a chunk gives its
/// events other than tool calls.
pub open spec fn plain_openai_step(data: Seq<char>, parsed: Option<JsonView>) -> (Seq<EventView>, bool) {
    if data == "[DONE]"@ {
        (seq![EventView::Stop(None)], true)
    } else {
        match parsed {
            Some(chunk) => (match openai_events(chunk) { Some(es) => es, None => Seq::empty() }, false),
            None => (Seq::empty(), false),
        }
    }
}

/// Takes in a payload of an Azure or OpenAI Responses stream.
pub fn plain_openai_payload(data: &str, parsed: Option<&JsonValue>) -> (r: (Vec<StreamEvent>, bool))
    ensures
        (events_view(r.0@), r.1) == plain_openai_step(data@, oview(parsed)),
{
    let mut out: Vec<StreamEvent> = Vec::new();
    proof { reveal_strlit("[DONE]"); }
    if str_eq(data, "[DONE]") {
        push_event(&mut out, StreamEvent::Stop { reason: None });
        assert(events_view(out@) =~= seq![EventView::Stop(None)]);
        return (out, true);
    }
    if let Some(chunk) = parsed {
        if let Some(events) = parse_openai_events(chunk) {
            return (events, false);
        }
    }
    assert(events_view(out@) =~= Seq::<EventView>::empty());
    (out, false)
}

/// The events of a Vertex candidate's parts: text, and thinking given as
/// text in `thought`.
pub open spec fn vertex_part_events(parts: Seq<JsonView>) -> Seq<EventView>
    decreases parts.len(),
{
    if parts.len() == 0 {
        Seq::empty()
    } else {
        let p = parts.last();
        vertex_part_events(parts.drop_last())
            + (match jstr_of(jget(p, "text"@)) { Some(t) => seq![EventView::TextDelta(t)], None => Seq::empty() })
            + (match jstr_of(jget(p, "thought"@)) { Some(t) => seq![EventView::ThinkingDelta(t)], None => Seq::empty() })
    }
}

/// The events of a Vertex chunk's candidates, in order, and whether a
/// `STOP` finish reason ended the stream, after which nothing follows.
pub open spec fn vertex_candidates(cands: Seq<JsonView>) -> (Seq<EventView>, bool)
    decreases cands.len(),
{
    if cands.len() == 0 {
        (Seq::empty(), false)
    } else {
        let prev = vertex_candidates(cands.drop_last());
        if prev.1 {
            prev
        } else {
            let c = cands.last();
            let parts = match jarr_of(jat(jget(c, "content"@), "parts"@)) { Some(p) => p, None => Seq::empty() };
            let es = prev.0 + vertex_part_events(parts);
            if jstr_of(jget(c, "finishReason"@)) == Some("STOP"@) {
                (es.push(EventView::Stop(None)), true)
            } else {
                (es, false)
            }
        }
    }
}

/// What a payload of a Vertex stream gives, and whether the stream ends:
/// `[DONE]` ends it; a chunk gives its candidates' events and, unless a
/// candidate stopped, its usage.
pub open spec fn vertex_step(data: Seq<char>, parsed: Option<JsonView>) -> (Seq<EventView>, bool) {
    if data == "[DONE]"@ {
        (Seq::empty(), true)
    } else {
        match parsed {
            None => (Seq::empty(), false),
            Some(chunk) => {
                let cands = match jarr_of(jget(chunk, "candidates"@)) { Some(c) => c, None => Seq::empty() };
                let vc = vertex_candidates(cands);
                if vc.1 {
                    vc
                } else {
                    (vc.0 + match jget(chunk, "usageMetadata"@) {
                        Some(u) => seq![EventView::Usage(Usage {
                            input_tokens: count_of(jget(u, "promptTokenCount"@)),
                            output_tokens: count_of(jget(u, "candidatesTokenCount"@)),
                            cache_creation_input_tokens: None,
                            cache_read_input_tokens: None,
                        })],
                        None => Seq::empty(),
                    }, false)
                }
            },
        }
    }
}

/// Takes in a payload of a Vertex stream.
pub fn vertex_payload(data: &str, parsed: Option<&JsonValue>) -> (r: (Vec<StreamEvent>, bool))
    ensures
        (events_view(r.0@), r.1) == vertex_step(data@, oview(parsed)),
{
    let mut out: Vec<StreamEvent> = Vec::new();
    proof { reveal_strlit("[DONE]"); reveal_strlit("STOP"); }
    if str_eq(data, "[DONE]") {
        assert(events_view(out@) =~= Seq::<EventView>::empty());
        return (out, true);
    }
    let chunk = match parsed {
        Some(c) => c,
        None => {
            assert(events_view(out@) =~= Seq::<EventView>::empty());
            return (out, false);
        },
    };
    let empty: Vec<JsonValue> = Vec::new();
    let cands: &Vec<JsonValue> = match arr_opt(chunk.get("candidates")) {
        Some(c) => c,
        None => &empty,
    };
    proof { lemma_jview_items(cands@); }
    let ghost cv = jview_items(cands@);
    assert(cv == (match jarr_of(jget(jview(*chunk), "candidates"@)) { Some(c) => c, None => Seq::<JsonView>::empty() }));
    let mut i: usize = 0;
    while i < cands.len()
        invariant
            cv == (match jarr_of(jget(jview(*chunk), "candidates"@)) { Some(c) => c, None => Seq::<JsonView>::empty() }),
            data@ != "[DONE]"@,
            oview(parsed) == Some(jview(*chunk)),
            i <= cands.len(),
            cv == jview_items(cands@),
            cv.len() == cands@.len(),
            forall|k: int| 0 <= k < cands@.len() ==> #[trigger] cv[k] == jview(cands@[k]),
            !vertex_candidates(cv.subrange(0, i as int)).1,
            empty@ == Seq::<JsonValue>::empty(),
            events_view(out@) == vertex_candidates(cv.subrange(0, i as int)).0,
        decreases cands.len() - i,
    {
        assert(cv.subrange(0, i + 1).drop_last() =~= cv.subrange(0, i as int));
        let c = &cands[i];
        let parts: &Vec<JsonValue> = match arr_opt(get_opt(c.get("content"), "parts")) {
            Some(p) => p,
            None => &empty,
        };
        proof { lemma_jview_items(parts@); }
        let ghost pv = jview_items(parts@);
        assert(jview(*c) == cv[i as int]);
        assert(pv == (match jarr_of(jat(jget(cv[i as int], "content"@), "parts"@)) {
            Some(p) => p,
            None => Seq::<JsonView>::empty(),
        }));
        let ghost base = events_view(out@);
        let mut k: usize = 0;
        while k < parts.len()
            invariant
                k <= parts.len(),
                pv == jview_items(parts@),
                pv.len() == parts@.len(),
                forall|j: int| 0 <= j < parts@.len() ==> #[trigger] pv[j] == jview(parts@[j]),
                events_view(out@) == base + vertex_part_events(pv.subrange(0, k as int)),
            decreases parts.len() - k,
        {
            assert(pv.subrange(0, k + 1).drop_last() =~= pv.subrange(0, k as int));
            let ghost before = events_view(out@);
            let p = &parts[k];
            let text = str_opt(p.get("text"));
            if let Some(t) = text {
                push_event(&mut out, StreamEvent::TextDelta { text: t.to_string() });
            }
            let thought = str_opt(p.get("thought"));
            if let Some(t) = thought {
                push_event(&mut out, StreamEvent::ThinkingDelta { thinking: t.to_string() });
            }
            assert(events_view(out@) =~= base + vertex_part_events(pv.subrange(0, k + 1)));
            k = k + 1;
        }
        assert(pv.subrange(0, parts.len() as int) =~= pv);
        let stops = match str_opt(c.get("finishReason")) {
            Some(r) => str_eq(r, "STOP"),
            None => false,
        };
        if stops {
            push_event(&mut out, StreamEvent::Stop { reason: None });
            assert(events_view(out@) =~= vertex_candidates(cv.subrange(0, i + 1)).0);
            proof {
                let mut j: int = i + 1;
                assert(vertex_candidates(cv.subrange(0, j)).1);
                lemma_vertex_stays_stopped(cv, j);
            }
            return (out, true);
        }
        i = i + 1;
    }
    assert(cv.subrange(0, cands.len() as int) =~= cv);
    if let Some(u) = chunk.get("usageMetadata") {
        push_event(&mut out, StreamEvent::Usage(Usage {
            input_tokens: count(u.get("promptTokenCount")),
            output_tokens: count(u.get("candidatesTokenCount")),
            cache_creation_input_tokens: None,
            cache_read_input_tokens: None,
        }));
    }
    let ghost expect = vertex_step(data@, oview(parsed));
    assert(events_view(out@) =~= expect.0);
    (out, false)
}

proof fn lemma_vertex_stays_stopped(cv: Seq<JsonView>, j: int)
    requires
        0 < j <= cv.len(),
        vertex_candidates(cv.subrange(0, j)).1,
    ensures
        vertex_candidates(cv) == vertex_candidates(cv.subrange(0, j)),
    decreases cv.len() - j,
{
    if j < cv.len() {
        assert(cv.subrange(0, j + 1).drop_last() =~= cv.subrange(0, j));
        lemma_vertex_stays_stopped(cv, j + 1);
    } else {
        assert(cv.subrange(0, j) =~= cv);
    }
}

/// What a line of a Bedrock stream gives, and whether the stream ends:
/// only lines that start with `{` count; a content delta gives its text
/// and thinking, `messageStop` ends the stream, and `toolUse` with an id
/// and a name starts a call.
pub open spec fn bedrock_step(line: Seq<char>, parsed: Option<JsonView>) -> (Seq<EventView>, bool) {
    if !(line.len() > 0 && line[0] == '{') {
        (Seq::empty(), false)
    } else {
        match parsed {
            None => (Seq::empty(), false),
            Some(ev) => {
                let t = jstr_of(jget(ev, "type"@));
                if t == Some("contentBlockDelta"@) {
                    let d = jget(ev, "delta"@);
                    ((match jstr_of(jat(d, "text"@)) { Some(x) => seq![EventView::TextDelta(x)], None => Seq::empty() })
                        + (match jstr_of(jat(d, "thinking"@)) { Some(x) => seq![EventView::ThinkingDelta(x)], None => Seq::empty() }),
                        false)
                } else if t == Some("messageStop"@) {
                    (seq![EventView::Stop(None)], true)
                } else if t == Some("toolUse"@) {
                    match (jstr_of(jget(ev, "toolUseId"@)), jstr_of(jget(ev, "name"@))) {
                        (Some(id), Some(name)) => (seq![EventView::ToolCallStart { id: id, name: name, index: 0 }], false),
                        _ => (Seq::empty(), false),
                    }
                } else {
                    (Seq::empty(), false)
                }
            },
        }
    }
}

/// Takes in a line of a Bedrock stream, trimmed, and the value it parsed
/// to, if it did.
pub fn bedrock_line(line: &str, parsed: Option<&JsonValue>) -> (r: (Vec<StreamEvent>, bool))
    ensures
        (events_view(r.0@), r.1) == bedrock_step(line@, oview(parsed)),
{
    let mut out: Vec<StreamEvent> = Vec::new();
    let cs = crate::text::to_chars(line);
    if !(cs.len() > 0 && cs[0] == '{') {
        assert(events_view(out@) =~= Seq::<EventView>::empty());
        return (out, false);
    }
    let ev = match parsed {
        Some(e) => e,
        None => {
            assert(events_view(out@) =~= Seq::<EventView>::empty());
            return (out, false);
        },
    };
    proof {
        reveal_strlit("contentBlockDelta");
        reveal_strlit("messageStop");
        reveal_strlit("toolUse");
    }
    let t = str_opt(ev.get("type"));
    let kind: u8 = match t {
        Some(x) => if str_eq(x, "contentBlockDelta") { 1 } else if str_eq(x, "messageStop") { 2 } else if str_eq(x, "toolUse") { 3 } else { 0 },
        None => 0,
    };
    let mut ends = false;
    if kind == 1 {
        let d = ev.get("delta");
        if let Some(x) = str_opt(get_opt(d, "text")) {
            push_event(&mut out, StreamEvent::TextDelta { text: x.to_string() });
        }
        if let Some(x) = str_opt(get_opt(d, "thinking")) {
            push_event(&mut out, StreamEvent::ThinkingDelta { thinking: x.to_string() });
        }
    } else if kind == 2 {
        push_event(&mut out, StreamEvent::Stop { reason: None });
        ends = true;
    } else if kind == 3 {
        let id = str_opt(ev.get("toolUseId"));
        let name = str_opt(ev.get("name"));
        if let (Some(i), Some(n)) = (id, name) {
            push_event(&mut out, StreamEvent::ToolCallStart { id: i.to_string(), name: n.to_string(), index: 0 });
        }
    }
    let ghost expect = bedrock_step(line@, oview(parsed));
    assert(events_view(out@) =~= expect.0);
    (out, ends)
}

} // verus!
