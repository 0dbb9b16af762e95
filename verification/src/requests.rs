//! The request bodies sent to each model provider for a completion
//! request.

use vstd::prelude::*;
use crate::json::{jtext, jview, jview_items, jview_members, lemma_jview_items, JsonValue, JsonView};
use crate::message::{blocks_view, messages_view, tools_view, BlockView, CompletionRequest, ContentBlock, Message, MessageView, ToolDefView, ToolDefinition};
use crate::prompt::opt_view;
use crate::text::{dec, push_str};
use crate::transform::{anthropic_block, block_to_anthropic, block_to_gemini_part, content_of, data_url, data_url_of, gemini_part, joined_text, js, jstring, message_blocks, obj1, obj2, obj3, openai_tool_results, push_json, sender_is_user, tool_message, tool_message_of};

verus! {

/// Members that follow a body's fixed ones only when present.
pub open spec fn opt_member(present: bool, name: Seq<char>, v: JsonView) -> Seq<(Seq<char>, JsonView)> {
    if present { seq![(name, v)] } else { Seq::empty() }
}

fn push_member(m: &mut Vec<(String, JsonValue)>, name: &str, v: JsonValue)
    ensures
        jview_members(final(m)@) == jview_members(old(m)@).push((name@, jview(v))),
{
    let ghost before = m@;
    m.push((name.to_string(), v));
    assert(m@.drop_last() =~= before);
}

/// The texts joined in order.
pub open spec fn concat_all(s: Seq<Seq<char>>) -> Seq<char>
    decreases s.len(),
{
    if s.len() == 0 { Seq::empty() } else { concat_all(s.drop_last()) + s.last() }
}

/// Each text as a string value.
pub open spec fn strs(s: Seq<Seq<char>>) -> Seq<JsonView> {
    s.map_values(|t: Seq<char>| js(t))
}

// ---------------------------------------------------------------------
// OpenAI chat completions
// ---------------------------------------------------------------------

/// A user message holding `content`.
pub open spec fn user_message(content: JsonView) -> JsonView {
    JsonView::Object(seq![("role"@, js("user"@)), ("content"@, content)])
}

/// The messages made so far from a user message's blocks, and the texts
/// gathered since the last tool result: a tool result first sends the
/// gathered texts joined into one user message.
pub open spec fn request_user_scan(bs: Seq<BlockView>) -> (Seq<JsonView>, Seq<Seq<char>>)
    decreases bs.len(),
{
    if bs.len() == 0 {
        (Seq::empty(), Seq::empty())
    } else {
        let prev = request_user_scan(bs.drop_last());
        match bs.last() {
            BlockView::Text(t) => (prev.0, prev.1.push(t)),
            BlockView::Image { media_type, data } => (prev.0, prev.1.push(data_url(media_type, data))),
            BlockView::ToolResult { tool_use_id, content, is_error } => (
                (prev.0 + (if prev.1.len() > 0 { seq![user_message(js(concat_all(prev.1)))] } else { Seq::empty() }))
                    .push(tool_message(tool_use_id, content)),
                Seq::empty(),
            ),
            _ => prev,
        }
    }
}

/// The texts left at the end of a user message: one as it is, more as a
/// list.
pub open spec fn request_user_tail(texts: Seq<Seq<char>>) -> Seq<JsonView> {
    if texts.len() == 0 {
        Seq::empty()
    } else if texts.len() == 1 {
        seq![user_message(js(texts[0]))]
    } else {
        seq![user_message(JsonView::Array(strs(texts)))]
    }
}

/// A user message in the request's format.
pub open spec fn request_user(bs: Seq<BlockView>) -> Seq<JsonView> {
    request_user_scan(bs).0 + request_user_tail(request_user_scan(bs).1)
}

/// The tool calls of an assistant message, each with its input as JSON
/// text.
pub open spec fn request_tool_calls(bs: Seq<BlockView>) -> Seq<JsonView>
    decreases bs.len(),
{
    if bs.len() == 0 {
        Seq::empty()
    } else {
        match bs.last() {
            BlockView::ToolUse { id, name, input } => request_tool_calls(bs.drop_last()).push(
                JsonView::Object(seq![
                    ("id"@, js(id)),
                    ("type"@, js("function"@)),
                    ("function"@, JsonView::Object(seq![("name"@, js(name)), ("arguments"@, js(jtext(input)))])),
                ]),
            ),
            _ => request_tool_calls(bs.drop_last()),
        }
    }
}

/// An assistant message in the request's format: its joined text, or null
/// when there is none, and its tool calls when it has any.
pub open spec fn request_assistant(bs: Seq<BlockView>) -> JsonView {
    JsonView::Object(request_assistant_members(bs))
}

/// The members of an assistant message in the request's format.
pub open spec fn request_assistant_members(bs: Seq<BlockView>) -> Seq<(Seq<char>, JsonView)> {
        seq![
            ("role"@, js("assistant"@)),
            ("content"@, if joined_text(bs).len() == 0 { JsonView::Null } else { js(joined_text(bs)) }),
        ] + opt_member(request_tool_calls(bs).len() > 0, "tool_calls"@, JsonView::Array(request_tool_calls(bs)))
}

/// One message in the request's format.
pub open spec fn request_message(m: MessageView) -> Seq<JsonView> {
    match m {
        MessageView::User(bs) => request_user(bs),
        MessageView::Assistant(bs) => seq![request_assistant(bs)],
        MessageView::ToolResult(bs) => openai_tool_results(bs),
    }
}

/// The conversation in the request's format.
pub open spec fn request_messages(ms: Seq<MessageView>) -> Seq<JsonView>
    decreases ms.len(),
{
    if ms.len() == 0 {
        Seq::empty()
    } else {
        request_messages(ms.drop_last()) + request_message(ms.last())
    }
}

/// A tool as an OpenAI function.
pub open spec fn openai_tool(t: ToolDefView) -> JsonView {
    JsonView::Object(seq![
        ("type"@, js("function"@)),
        ("function"@, JsonView::Object(seq![
            ("name"@, js(t.name)),
            ("description"@, js(t.description)),
            ("parameters"@, t.parameters),
        ])),
    ])
}

/// The body of an OpenAI chat completions request: the model, the output
/// limit, the system prompt as the first message, the conversation,
/// streaming on, and the tools when there are any.
pub open spec fn openai_body(
    model: Seq<char>,
    max_tokens: u32,
    system: Option<Seq<char>>,
    ms: Seq<MessageView>,
    tools: Seq<ToolDefView>,
) -> JsonView {
    JsonView::Object(openai_body_members(model, max_tokens, system, ms, tools))
}

/// The members of an OpenAI chat completions request body.
pub open spec fn openai_body_members(
    model: Seq<char>,
    max_tokens: u32,
    system: Option<Seq<char>>,
    ms: Seq<MessageView>,
    tools: Seq<ToolDefView>,
) -> Seq<(Seq<char>, JsonView)> {
        seq![
            ("model"@, js(model)),
            ("max_tokens"@, JsonView::Number(dec(max_tokens as nat))),
            ("messages"@, JsonView::Array(
                (match system {
                    Some(s) => seq![JsonView::Object(seq![("role"@, js("system"@)), ("content"@, js(s))])],
                    None => Seq::empty(),
                }) + request_messages(ms),
            )),
            ("stream"@, JsonView::Bool(true)),
        ] + opt_member(tools.len() > 0, "tools"@, JsonView::Array(tools.map_values(|t: ToolDefView| openai_tool(t))))
}

fn concat_strings(texts: &Vec<String>) -> (s: String)
    ensures
        s@ == concat_all(texts@.map_values(|t: String| t@)),
{
    let ghost ts = texts@.map_values(|t: String| t@);
    let mut s = String::new();
    let mut i: usize = 0;
    while i < texts.len()
        invariant
            i <= texts.len(),
            ts == texts@.map_values(|t: String| t@),
            s@ == concat_all(ts.subrange(0, i as int)),
        decreases texts.len() - i,
    {
        assert(ts.subrange(0, i + 1).drop_last() =~= ts.subrange(0, i as int));
        push_str(&mut s, texts[i].as_str());
        i = i + 1;
    }
    assert(ts.subrange(0, texts.len() as int) =~= ts);
    s
}

fn request_user_into(blocks: &Vec<ContentBlock>, result: &mut Vec<JsonValue>)
    ensures
        jview_items(final(result)@) == jview_items(old(result)@) + request_user(blocks_view(blocks@)),
{
    let ghost bs = blocks_view(blocks@);
    let ghost base = jview_items(result@);
    let mut texts: Vec<String> = Vec::new();
    let mut i: usize = 0;
    assert(base + request_user_scan(bs.subrange(0, 0)).0 =~= base);
    assert(texts@.map_values(|t: String| t@) =~= request_user_scan(bs.subrange(0, 0)).1);
    while i < blocks.len()
        invariant
            i <= blocks.len(),
            bs == blocks_view(blocks@),
            jview_items(result@) == base + request_user_scan(bs.subrange(0, i as int)).0,
            texts@.map_values(|t: String| t@) == request_user_scan(bs.subrange(0, i as int)).1,
        decreases blocks.len() - i,
    {
        let ghost prev = request_user_scan(bs.subrange(0, i as int));
        proof { assert(bs.subrange(0, i + 1).drop_last() =~= bs.subrange(0, i as int)); }
        match &blocks[i] {
            ContentBlock::Text(t) => {
                texts.push(t.text.clone());
                assert(texts@.map_values(|t: String| t@) =~= prev.1.push(t.text@));
            },
            ContentBlock::Image(img) => {
                let url = data_url_of(img.media_type.as_str(), img.data.as_str());
                texts.push(url);
                assert(texts@.map_values(|t: String| t@) =~= prev.1.push(data_url(img.media_type@, img.data@)));
            },
            ContentBlock::ToolResult(r) => {
                let ghost before = jview_items(result@);
                if texts.len() > 0 {
                    let joined = concat_strings(&texts);
                    push_json(result, obj2("role", JsonValue::string("user"), "content", JsonValue::Str(joined)));
                }
                push_json(result, tool_message_of(&r.tool_use_id, &r.content));
                texts.clear();
                proof {
                    assert(texts@.map_values(|t: String| t@) =~= Seq::<Seq<char>>::empty());
                    let flushed = if prev.1.len() > 0 { seq![user_message(js(concat_all(prev.1)))] } else { Seq::<JsonView>::empty() };
                    assert(base + (prev.0 + flushed).push(tool_message(r.tool_use_id@, r.content@))
                        =~= jview_items(result@));
                }
            },
            _ => {},
        }
        i = i + 1;
    }
    assert(bs.subrange(0, blocks.len() as int) =~= bs);
    let ghost scanned = request_user_scan(bs);
    let ghost before = jview_items(result@);
    if texts.len() == 1 {
        push_json(result, obj2("role", JsonValue::string("user"), "content", jstring(&texts[0])));
    } else if texts.len() > 1 {
        let mut items: Vec<JsonValue> = Vec::new();
        let mut k: usize = 0;
        while k < texts.len()
            invariant
                k <= texts.len(),
                jview_items(items@) == strs(texts@.map_values(|t: String| t@)).subrange(0, k as int),
            decreases texts.len() - k,
        {
            push_json(&mut items, jstring(&texts[k]));
            assert(strs(texts@.map_values(|t: String| t@)).subrange(0, k + 1)
                =~= strs(texts@.map_values(|t: String| t@)).subrange(0, k as int).push(js(texts@[k as int]@)));
            k = k + 1;
        }
        assert(strs(texts@.map_values(|t: String| t@)).subrange(0, texts.len() as int) =~= strs(scanned.1));
        push_json(result, obj2("role", JsonValue::string("user"), "content", JsonValue::Array(items)));
    }
    assert(base + scanned.0 + request_user_tail(scanned.1) =~= jview_items(result@));
}

fn request_assistant_of(blocks: &Vec<ContentBlock>) -> (j: JsonValue)
    ensures
        jview(j) == request_assistant(blocks_view(blocks@)),
{
    let ghost bs = blocks_view(blocks@);
    let mut text = String::new();
    let mut calls: Vec<JsonValue> = Vec::new();
    let mut i: usize = 0;
    while i < blocks.len()
        invariant
            i <= blocks.len(),
            bs == blocks_view(blocks@),
            text@ == joined_text(bs.subrange(0, i as int)),
            jview_items(calls@) == request_tool_calls(bs.subrange(0, i as int)),
        decreases blocks.len() - i,
    {
        proof { assert(bs.subrange(0, i + 1).drop_last() =~= bs.subrange(0, i as int)); }
        match &blocks[i] {
            ContentBlock::Text(t) => {
                push_str(&mut text, t.text.as_str());
            },
            ContentBlock::ToolUse(tc) => {
                let args = tc.input.to_text();
                let f = obj2("name", jstring(&tc.name), "arguments", JsonValue::Str(args));
                let c = obj3("id", jstring(&tc.id), "type", JsonValue::string("function"), "function", f);
                push_json(&mut calls, c);
            },
            _ => {},
        }
        i = i + 1;
    }
    assert(bs.subrange(0, blocks.len() as int) =~= bs);
    let content = if crate::text::to_chars(text.as_str()).len() == 0 { JsonValue::Null } else { JsonValue::Str(text) };
    let mut members: Vec<(String, JsonValue)> = Vec::new();
    push_member(&mut members, "role", JsonValue::string("assistant"));
    push_member(&mut members, "content", content);
    if calls.len() > 0 {
        proof { lemma_jview_items(calls@); }
        push_member(&mut members, "tool_calls", JsonValue::Array(calls));
    }
    assert(jview_members(members@) =~= request_assistant_members(bs));
    JsonValue::Object(members)
}

fn openai_tool_of(t: &ToolDefinition) -> (j: JsonValue)
    ensures
        jview(j) == openai_tool(t@),
{
    let f = obj3(
        "name", jstring(&t.name),
        "description", jstring(&t.description),
        "parameters", t.parameters.duplicate(),
    );
    obj2("type", JsonValue::string("function"), "function", f)
}

fn openai_tools_of(tools: &Vec<ToolDefinition>) -> (j: JsonValue)
    ensures
        jview(j) == JsonView::Array(tools_view(tools@).map_values(|t: ToolDefView| openai_tool(t))),
{
    let ghost ts = tools_view(tools@);
    let mut out: Vec<JsonValue> = Vec::new();
    let mut i: usize = 0;
    while i < tools.len()
        invariant
            i <= tools.len(),
            ts == tools_view(tools@),
            jview_items(out@) == ts.subrange(0, i as int).map_values(|t: ToolDefView| openai_tool(t)),
        decreases tools.len() - i,
    {
        push_json(&mut out, openai_tool_of(&tools[i]));
        assert(ts.subrange(0, i + 1).map_values(|t: ToolDefView| openai_tool(t))
            =~= ts.subrange(0, i as int).map_values(|t: ToolDefView| openai_tool(t)).push(openai_tool(ts[i as int])));
        i = i + 1;
    }
    assert(ts.subrange(0, tools.len() as int) =~= ts);
    JsonValue::Array(out)
}

/// The body of an OpenAI chat completions request.
pub fn build_openai_request(req: &CompletionRequest) -> (body: JsonValue)
    ensures
        jview(body) == openai_body(
            req.model@,
            req.max_tokens,
            opt_view(req.system_prompt),
            messages_view(req.messages@),
            tools_view(req.tools@),
        ),
{
    let ghost ms = messages_view(req.messages@);
    let mut messages: Vec<JsonValue> = Vec::new();
    if let Some(system) = &req.system_prompt {
        push_json(&mut messages, obj2("role", JsonValue::string("system"), "content", jstring(system)));
    }
    let ghost head = jview_items(messages@);
    assert(head + request_messages(ms.subrange(0, 0)) =~= head);
    let mut i: usize = 0;
    while i < req.messages.len()
        invariant
            i <= req.messages.len(),
            ms == messages_view(req.messages@),
            jview_items(messages@) == head + request_messages(ms.subrange(0, i as int)),
        decreases req.messages.len() - i,
    {
        proof { assert(ms.subrange(0, i + 1).drop_last() =~= ms.subrange(0, i as int)); }
        let ghost before = jview_items(messages@);
        match &req.messages[i] {
            Message::User(u) => {
                request_user_into(&u.content, &mut messages);
            },
            Message::Assistant(a) => {
                push_json(&mut messages, request_assistant_of(&a.content));
            },
            Message::ToolResult(t) => {
                crate::transform::openai_tool_results_into(&t.content, &mut messages);
            },
        }
        assert(jview_items(messages@) =~= head + request_messages(ms.subrange(0, i + 1)));
        i = i + 1;
    }
    assert(ms.subrange(0, req.messages.len() as int) =~= ms);
    let mut members: Vec<(String, JsonValue)> = Vec::new();
    push_member(&mut members, "model", jstring(&req.model));
    push_member(&mut members, "max_tokens", JsonValue::number(req.max_tokens as u64));
    push_member(&mut members, "messages", JsonValue::Array(messages));
    push_member(&mut members, "stream", JsonValue::Bool(true));
    if req.tools.len() > 0 {
        push_member(&mut members, "tools", openai_tools_of(&req.tools));
    }
    assert(jview_members(members@) =~= openai_body_members(req.model@, req.max_tokens, opt_view(req.system_prompt), ms, tools_view(req.tools@)));
    JsonValue::Object(members)
}

// ---------------------------------------------------------------------
// Anthropic messages
// ---------------------------------------------------------------------

/// The block that stands for one that a message of its kind cannot carry.
pub open spec fn unsupported_block() -> JsonView {
    JsonView::Object(seq![("type"@, js("text"@)), ("text"@, js("[unsupported]"@))])
}

/// The blocks each kind of message carries to Anthropic: text and images
/// from the user, text, thinking and tool calls from the assistant, and
/// tool results in tool-result messages.
pub open spec fn anthropic_carries(m: MessageView, b: BlockView) -> bool {
    match m {
        MessageView::User(_) => b is Text || b is Image,
        MessageView::Assistant(_) => b is Text || b is Thinking || b is ToolUse,
        MessageView::ToolResult(_) => b is ToolResult,
    }
}

/// A block of a message in the Anthropic request.
pub open spec fn anthropic_request_block(m: MessageView, b: BlockView) -> JsonView {
    if anthropic_carries(m, b) { anthropic_block(b) } else { unsupported_block() }
}

/// A message in the Anthropic request.
pub open spec fn anthropic_request_message(m: MessageView) -> JsonView {
    JsonView::Object(seq![
        ("role"@, js(if sender_is_user(m) { "user"@ } else { "assistant"@ })),
        ("content"@, JsonView::Array(message_blocks(m).map_values(|b: BlockView| anthropic_request_block(m, b)))),
    ])
}

/// A tool as Anthropic takes it.
pub open spec fn anthropic_tool(t: ToolDefView) -> JsonView {
    JsonView::Object(seq![("name"@, js(t.name)), ("description"@, js(t.description)), ("input_schema"@, t.parameters)])
}

/// The thinking budget used when none is given.
pub const DEFAULT_THINKING_BUDGET: u32 = 10000;

/// The members of an Anthropic messages request body: the model, the
/// output limit, the conversation, streaming on, then the system prompt,
/// the tools and the thinking budget when they are given.
pub open spec fn anthropic_body_members(
    model: Seq<char>,
    max_tokens: u32,
    system: Option<Seq<char>>,
    ms: Seq<MessageView>,
    tools: Seq<ToolDefView>,
    thinking_enabled: bool,
    thinking_budget: Option<u32>,
) -> Seq<(Seq<char>, JsonView)> {
    seq![
        ("model"@, js(model)),
        ("max_tokens"@, JsonView::Number(dec(max_tokens as nat))),
        ("messages"@, JsonView::Array(ms.map_values(|m: MessageView| anthropic_request_message(m)))),
        ("stream"@, JsonView::Bool(true)),
    ]
        + opt_member(system is Some, "system"@, js(system.unwrap()))
        + opt_member(tools.len() > 0, "tools"@, JsonView::Array(tools.map_values(|t: ToolDefView| anthropic_tool(t))))
        + opt_member(thinking_enabled, "thinking"@, thinking_config(match thinking_budget {
            Some(b) => b,
            None => DEFAULT_THINKING_BUDGET,
        }))
}

/// The thinking settings for a budget of tokens.
pub open spec fn thinking_config(budget: u32) -> JsonView {
    JsonView::Object(seq![("type"@, js("enabled"@)), ("budget_tokens"@, JsonView::Number(dec(budget as nat)))])
}

fn anthropic_request_message_of(m: &Message) -> (j: JsonValue)
    ensures
        jview(j) == anthropic_request_message(m@),
{
    let blocks = content_of(m);
    let ghost bs = blocks_view(blocks@);
    let ghost mv = m@;
    let mut out: Vec<JsonValue> = Vec::new();
    let mut i: usize = 0;
    while i < blocks.len()
        invariant
            i <= blocks.len(),
            bs == blocks_view(blocks@),
            bs == message_blocks(mv),
            mv == m@,
            jview_items(out@) == bs.subrange(0, i as int).map_values(|b: BlockView| anthropic_request_block(mv, b)),
        decreases blocks.len() - i,
    {
        let b = &blocks[i];
        let carried = match (m, b) {
            (Message::User(_), ContentBlock::Text(_)) => true,
            (Message::User(_), ContentBlock::Image(_)) => true,
            (Message::Assistant(_), ContentBlock::Text(_)) => true,
            (Message::Assistant(_), ContentBlock::Thinking(_)) => true,
            (Message::Assistant(_), ContentBlock::ToolUse(_)) => true,
            (Message::ToolResult(_), ContentBlock::ToolResult(_)) => true,
            _ => false,
        };
        let x = if carried {
            block_to_anthropic(b)
        } else {
            obj2("type", JsonValue::string("text"), "text", JsonValue::string("[unsupported]"))
        };
        push_json(&mut out, x);
        assert(bs.subrange(0, i + 1).map_values(|b: BlockView| anthropic_request_block(mv, b))
            =~= bs.subrange(0, i as int).map_values(|b: BlockView| anthropic_request_block(mv, b)).push(anthropic_request_block(mv, bs[i as int])));
        i = i + 1;
    }
    assert(bs.subrange(0, blocks.len() as int) =~= bs);
    let role = match m {
        Message::Assistant(_) => JsonValue::string("assistant"),
        _ => JsonValue::string("user"),
    };
    obj2("role", role, "content", JsonValue::Array(out))
}

/// The body of an Anthropic messages request.
pub fn build_anthropic_request(req: &CompletionRequest) -> (body: JsonValue)
    ensures
        jview(body) == JsonView::Object(anthropic_body_members(
            req.model@,
            req.max_tokens,
            opt_view(req.system_prompt),
            messages_view(req.messages@),
            tools_view(req.tools@),
            req.thinking_enabled,
            req.thinking_budget,
        )),
{
    let ghost ms = messages_view(req.messages@);
    let mut messages: Vec<JsonValue> = Vec::new();
    let mut i: usize = 0;
    while i < req.messages.len()
        invariant
            i <= req.messages.len(),
            ms == messages_view(req.messages@),
            jview_items(messages@) == ms.subrange(0, i as int).map_values(|m: MessageView| anthropic_request_message(m)),
        decreases req.messages.len() - i,
    {
        push_json(&mut messages, anthropic_request_message_of(&req.messages[i]));
        assert(ms.subrange(0, i + 1).map_values(|m: MessageView| anthropic_request_message(m))
            =~= ms.subrange(0, i as int).map_values(|m: MessageView| anthropic_request_message(m)).push(anthropic_request_message(ms[i as int])));
        i = i + 1;
    }
    assert(ms.subrange(0, req.messages.len() as int) =~= ms);
    let mut members: Vec<(String, JsonValue)> = Vec::new();
    push_member(&mut members, "model", jstring(&req.model));
    push_member(&mut members, "max_tokens", JsonValue::number(req.max_tokens as u64));
    push_member(&mut members, "messages", JsonValue::Array(messages));
    push_member(&mut members, "stream", JsonValue::Bool(true));
    let ghost fixed = jview_members(members@);
    let ghost sys = opt_view(req.system_prompt);
    if let Some(system) = &req.system_prompt {
        push_member(&mut members, "system", jstring(system));
    }
    assert(jview_members(members@) =~= fixed + opt_member(sys is Some, "system"@, js(sys.unwrap())));
    let ghost with_system = jview_members(members@);
    if req.tools.len() > 0 {
        let ghost ts = tools_view(req.tools@);
        let mut tools: Vec<JsonValue> = Vec::new();
        let mut k: usize = 0;
        while k < req.tools.len()
            invariant
                k <= req.tools.len(),
                ts == tools_view(req.tools@),
                jview_items(tools@) == ts.subrange(0, k as int).map_values(|t: ToolDefView| anthropic_tool(t)),
            decreases req.tools.len() - k,
        {
            let t = &req.tools[k];
            push_json(&mut tools, obj3(
                "name", jstring(&t.name),
                "description", jstring(&t.description),
                "input_schema", t.parameters.duplicate(),
            ));
            assert(ts.subrange(0, k + 1).map_values(|t: ToolDefView| anthropic_tool(t))
                =~= ts.subrange(0, k as int).map_values(|t: ToolDefView| anthropic_tool(t)).push(anthropic_tool(ts[k as int])));
            k = k + 1;
        }
        assert(ts.subrange(0, req.tools.len() as int) =~= ts);
        push_member(&mut members, "tools", JsonValue::Array(tools));
    }
    let ghost ts = tools_view(req.tools@);
    assert(jview_members(members@) =~= with_system + opt_member(ts.len() > 0, "tools"@,
        JsonView::Array(ts.map_values(|t: ToolDefView| anthropic_tool(t)))));
    let ghost with_tools = jview_members(members@);
    if req.thinking_enabled {
        let budget = match req.thinking_budget {
            Some(b) => b,
            None => DEFAULT_THINKING_BUDGET,
        };

        let config = obj2(
            "type", JsonValue::string("enabled"),
            "budget_tokens", JsonValue::number(budget as u64),
        );
        assert(jview(config) == thinking_config(budget));
        push_member(&mut members, "thinking", config);
    }
    let ghost thinking_v = thinking_config(match req.thinking_budget {
        Some(b) => b,
        None => DEFAULT_THINKING_BUDGET,
    });
    assert(jview_members(members@) =~= with_tools + opt_member(req.thinking_enabled, "thinking"@, thinking_v));
    assert(fixed =~= seq![
        ("model"@, js(req.model@)),
        ("max_tokens"@, JsonView::Number(dec(req.max_tokens as nat))),
        ("messages"@, JsonView::Array(ms.map_values(|m: MessageView| anthropic_request_message(m)))),
        ("stream"@, JsonView::Bool(true)),
    ]);
    assert(anthropic_body_members(
        req.model@,
        req.max_tokens,
        opt_view(req.system_prompt),
        ms,
        tools_view(req.tools@),
        req.thinking_enabled,
        req.thinking_budget,
    ) == fixed + opt_member(sys is Some, "system"@, js(sys.unwrap()))
        + opt_member(ts.len() > 0, "tools"@, JsonView::Array(ts.map_values(|t: ToolDefView| anthropic_tool(t))))
        + opt_member(req.thinking_enabled, "thinking"@, thinking_v));
    assert(jview_members(members@) =~= anthropic_body_members(
        req.model@,
        req.max_tokens,
        opt_view(req.system_prompt),
        ms,
        tools_view(req.tools@),
        req.thinking_enabled,
        req.thinking_budget,
    ));
    JsonValue::Object(members)
}

// ---------------------------------------------------------------------
// Gemini generateContent
// ---------------------------------------------------------------------

/// The blocks each kind of message carries to Gemini: text and tool
/// results from the user, text, tool calls and thinking from the
/// assistant, and tool results in tool-result messages.
pub open spec fn gemini_carries(m: MessageView, b: BlockView) -> bool {
    match m {
        MessageView::User(_) => b is Text || b is ToolResult,
        MessageView::Assistant(_) => b is Text || b is ToolUse || b is Thinking,
        MessageView::ToolResult(_) => b is ToolResult,
    }
}

/// A block of a message in the Gemini request; one the message cannot
/// carry becomes an empty text for the assistant and `[unsupported]`
/// otherwise.
pub open spec fn gemini_request_part(m: MessageView, b: BlockView) -> JsonView {
    if gemini_carries(m, b) {
        gemini_part(b)
    } else if m is Assistant {
        JsonView::Object(seq![("text"@, js(Seq::empty()))])
    } else {
        JsonView::Object(seq![("text"@, js("[unsupported]"@))])
    }
}

/// A message in the Gemini request.
pub open spec fn gemini_request_content(m: MessageView) -> JsonView {
    JsonView::Object(seq![
        ("role"@, js(if sender_is_user(m) { "user"@ } else { "model"@ })),
        ("parts"@, JsonView::Array(message_blocks(m).map_values(|b: BlockView| gemini_request_part(m, b)))),
    ])
}

/// A tool as a Gemini function declaration.
pub open spec fn gemini_declaration(t: ToolDefView) -> JsonView {
    JsonView::Object(seq![("name"@, js(t.name)), ("description"@, js(t.description)), ("parameters"@, t.parameters)])
}

/// The members of a Gemini request body: the contents and the output
/// limit, then the system instruction and the function declarations when
/// they are given.
pub open spec fn gemini_body_members(
    max_tokens: u32,
    system: Option<Seq<char>>,
    ms: Seq<MessageView>,
    tools: Seq<ToolDefView>,
) -> Seq<(Seq<char>, JsonView)> {
    seq![
        ("contents"@, JsonView::Array(ms.map_values(|m: MessageView| gemini_request_content(m)))),
        ("generationConfig"@, JsonView::Object(seq![("maxOutputTokens"@, JsonView::Number(dec(max_tokens as nat)))])),
    ]
        + opt_member(system is Some, "systemInstruction"@, JsonView::Object(seq![
            ("parts"@, JsonView::Array(seq![JsonView::Object(seq![("text"@, js(system.unwrap()))])])),
        ]))
        + opt_member(tools.len() > 0, "tools"@, JsonView::Array(seq![JsonView::Object(seq![
            ("functionDeclarations"@, JsonView::Array(tools.map_values(|t: ToolDefView| gemini_declaration(t)))),
        ])]))
}

fn gemini_request_content_of(m: &Message) -> (j: JsonValue)
    ensures
        jview(j) == gemini_request_content(m@),
{
    let blocks = content_of(m);
    let ghost bs = blocks_view(blocks@);
    let ghost mv = m@;
    let mut out: Vec<JsonValue> = Vec::new();
    let mut i: usize = 0;
    while i < blocks.len()
        invariant
            i <= blocks.len(),
            bs == blocks_view(blocks@),
            bs == message_blocks(mv),
            mv == m@,
            jview_items(out@) == bs.subrange(0, i as int).map_values(|b: BlockView| gemini_request_part(mv, b)),
        decreases blocks.len() - i,
    {
        let b = &blocks[i];
        let carried = match (m, b) {
            (Message::User(_), ContentBlock::Text(_)) => true,
            (Message::User(_), ContentBlock::ToolResult(_)) => true,
            (Message::Assistant(_), ContentBlock::Text(_)) => true,
            (Message::Assistant(_), ContentBlock::ToolUse(_)) => true,
            (Message::Assistant(_), ContentBlock::Thinking(_)) => true,
            (Message::ToolResult(_), ContentBlock::ToolResult(_)) => true,
            _ => false,
        };
        let x = if carried {
            block_to_gemini_part(b)
        } else {
            match m {
                Message::Assistant(_) => obj1("text", JsonValue::Str(String::new())),
                _ => obj1("text", JsonValue::string("[unsupported]")),
            }
        };
        push_json(&mut out, x);
        assert(bs.subrange(0, i + 1).map_values(|b: BlockView| gemini_request_part(mv, b))
            =~= bs.subrange(0, i as int).map_values(|b: BlockView| gemini_request_part(mv, b)).push(gemini_request_part(mv, bs[i as int])));
        i = i + 1;
    }
    assert(bs.subrange(0, blocks.len() as int) =~= bs);
    let role = match m {
        Message::Assistant(_) => JsonValue::string("model"),
        _ => JsonValue::string("user"),
    };
    obj2("role", role, "parts", JsonValue::Array(out))
}

/// The body of a Gemini `streamGenerateContent` request.
pub fn build_gemini_request(req: &CompletionRequest) -> (body: JsonValue)
    ensures
        jview(body) == JsonView::Object(gemini_body_members(
            req.max_tokens,
            opt_view(req.system_prompt),
            messages_view(req.messages@),
            tools_view(req.tools@),
        )),
{
    let ghost ms = messages_view(req.messages@);
    let mut contents: Vec<JsonValue> = Vec::new();
    let mut i: usize = 0;
    while i < req.messages.len()
        invariant
            i <= req.messages.len(),
            ms == messages_view(req.messages@),
            jview_items(contents@) == ms.subrange(0, i as int).map_values(|m: MessageView| gemini_request_content(m)),
        decreases req.messages.len() - i,
    {
        push_json(&mut contents, gemini_request_content_of(&req.messages[i]));
        assert(ms.subrange(0, i + 1).map_values(|m: MessageView| gemini_request_content(m))
            =~= ms.subrange(0, i as int).map_values(|m: MessageView| gemini_request_content(m)).push(gemini_request_content(ms[i as int])));
        i = i + 1;
    }
    assert(ms.subrange(0, req.messages.len() as int) =~= ms);
    let mut members: Vec<(String, JsonValue)> = Vec::new();
    push_member(&mut members, "contents", JsonValue::Array(contents));
    push_member(&mut members, "generationConfig", obj1("maxOutputTokens", JsonValue::number(req.max_tokens as u64)));
    if let Some(system) = &req.system_prompt {
        let part = obj1("text", jstring(system));
        let parts = vec![part];
        proof {
            lemma_jview_items(parts@);
            assert(jview_items(parts@) =~= seq![jview(part)]);
        }
        push_member(&mut members, "systemInstruction", obj1("parts", JsonValue::Array(parts)));
    }
    if req.tools.len() > 0 {
        let ghost ts = tools_view(req.tools@);
        let mut decls: Vec<JsonValue> = Vec::new();
        let mut k: usize = 0;
        while k < req.tools.len()
            invariant
                k <= req.tools.len(),
                ts == tools_view(req.tools@),
                jview_items(decls@) == ts.subrange(0, k as int).map_values(|t: ToolDefView| gemini_declaration(t)),
            decreases req.tools.len() - k,
        {
            let t = &req.tools[k];
            push_json(&mut decls, obj3(
                "name", jstring(&t.name),
                "description", jstring(&t.description),
                "parameters", t.parameters.duplicate(),
            ));
            assert(ts.subrange(0, k + 1).map_values(|t: ToolDefView| gemini_declaration(t))
                =~= ts.subrange(0, k as int).map_values(|t: ToolDefView| gemini_declaration(t)).push(gemini_declaration(ts[k as int])));
            k = k + 1;
        }
        assert(ts.subrange(0, req.tools.len() as int) =~= ts);
        let holder = obj1("functionDeclarations", JsonValue::Array(decls));
        let list = vec![holder];
        proof {
            lemma_jview_items(list@);
            assert(jview_items(list@) =~= seq![jview(holder)]);
        }
        push_member(&mut members, "tools", JsonValue::Array(list));
    }
    assert(jview_members(members@) =~= gemini_body_members(
        req.max_tokens,
        opt_view(req.system_prompt),
        ms,
        tools_view(req.tools@),
    ));
    JsonValue::Object(members)
}

} // verus!
