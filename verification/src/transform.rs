//! The conversation in each provider's message format: Anthropic's content
//! blocks with tool results inside user messages, OpenAI's chat messages
//! with tool results as messages of their own, and Gemini's parts with the
//! roles `user` and `model`.

use vstd::prelude::*;
use crate::json::{jview, jview_items, jview_members, lemma_jview_items_push, lemma_jview_members, JsonValue, JsonView};
use crate::message::{blocks_view, messages_view, BlockView, ContentBlock, Message, MessageView};
use crate::text::push_str;

verus! {

// ---------------------------------------------------------------------
// Building JSON values
// ---------------------------------------------------------------------

/// A string value.
pub open spec fn js(s: Seq<char>) -> JsonView {
    JsonView::Str(s)
}

pub fn obj1(k1: &str, v1: JsonValue) -> (j: JsonValue)
    ensures
        jview(j) == JsonView::Object(seq![(k1@, jview(v1))]),
{
    let m = vec![(k1.to_string(), v1)];
    proof {
        lemma_jview_members(m@);
        assert(jview_members(m@) =~= seq![(k1@, jview(v1))]);
    }
    JsonValue::Object(m)
}

pub fn obj2(k1: &str, v1: JsonValue, k2: &str, v2: JsonValue) -> (j: JsonValue)
    ensures
        jview(j) == JsonView::Object(seq![(k1@, jview(v1)), (k2@, jview(v2))]),
{
    let m = vec![(k1.to_string(), v1), (k2.to_string(), v2)];
    proof {
        lemma_jview_members(m@);
        assert(jview_members(m@) =~= seq![(k1@, jview(v1)), (k2@, jview(v2))]);
    }
    JsonValue::Object(m)
}

pub fn obj3(k1: &str, v1: JsonValue, k2: &str, v2: JsonValue, k3: &str, v3: JsonValue) -> (j: JsonValue)
    ensures
        jview(j) == JsonView::Object(seq![(k1@, jview(v1)), (k2@, jview(v2)), (k3@, jview(v3))]),
{
    let m = vec![(k1.to_string(), v1), (k2.to_string(), v2), (k3.to_string(), v3)];
    proof {
        lemma_jview_members(m@);
        assert(jview_members(m@) =~= seq![(k1@, jview(v1)), (k2@, jview(v2)), (k3@, jview(v3))]);
    }
    JsonValue::Object(m)
}

pub fn obj4(
    k1: &str,
    v1: JsonValue,
    k2: &str,
    v2: JsonValue,
    k3: &str,
    v3: JsonValue,
    k4: &str,
    v4: JsonValue,
) -> (j: JsonValue)
    ensures
        jview(j) == JsonView::Object(seq![(k1@, jview(v1)), (k2@, jview(v2)), (k3@, jview(v3)), (k4@, jview(v4))]),
{
    let m = vec![(k1.to_string(), v1), (k2.to_string(), v2), (k3.to_string(), v3), (k4.to_string(), v4)];
    proof {
        lemma_jview_members(m@);
        assert(jview_members(m@) =~= seq![(k1@, jview(v1)), (k2@, jview(v2)), (k3@, jview(v3)), (k4@, jview(v4))]);
    }
    JsonValue::Object(m)
}

pub(crate) fn jstring(s: &String) -> (j: JsonValue)
    ensures
        jview(j) == js(s@),
{
    JsonValue::Str(s.clone())
}

// ---------------------------------------------------------------------
// Anthropic
// ---------------------------------------------------------------------

/// A content block in Anthropic's format.
pub open spec fn anthropic_block(b: BlockView) -> JsonView {
    match b {
        BlockView::Text(t) => JsonView::Object(seq![("type"@, js("text"@)), ("text"@, js(t))]),
        BlockView::Thinking(t) => JsonView::Object(seq![("type"@, js("thinking"@)), ("thinking"@, js(t))]),
        BlockView::Image { media_type, data } => JsonView::Object(seq![
            ("type"@, js("image"@)),
            ("source"@, JsonView::Object(seq![
                ("type"@, js("base64"@)),
                ("media_type"@, js(media_type)),
                ("data"@, js(data)),
            ])),
        ]),
        BlockView::ToolUse { id, name, input } => JsonView::Object(seq![
            ("type"@, js("tool_use"@)),
            ("id"@, js(id)),
            ("name"@, js(name)),
            ("input"@, input),
        ]),
        BlockView::ToolResult { tool_use_id, content, is_error } => JsonView::Object(seq![
            ("type"@, js("tool_result"@)),
            ("tool_use_id"@, js(tool_use_id)),
            ("content"@, js(content)),
            ("is_error"@, JsonView::Bool(is_error)),
        ]),
    }
}

/// A content block in Anthropic's format.
pub fn block_to_anthropic(block: &ContentBlock) -> (j: JsonValue)
    ensures
        jview(j) == anthropic_block(block@),
{
    match block {
        ContentBlock::Text(t) => obj2("type", JsonValue::string("text"), "text", jstring(&t.text)),
        ContentBlock::Thinking(t) => obj2("type", JsonValue::string("thinking"), "thinking", jstring(&t.thinking)),
        ContentBlock::Image(img) => {
            let source = obj3(
                "type", JsonValue::string("base64"),
                "media_type", jstring(&img.media_type),
                "data", jstring(&img.data),
            );
            obj2("type", JsonValue::string("image"), "source", source)
        },
        ContentBlock::ToolUse(tc) => obj4(
            "type", JsonValue::string("tool_use"),
            "id", jstring(&tc.id),
            "name", jstring(&tc.name),
            "input", tc.input.duplicate(),
        ),
        ContentBlock::ToolResult(r) => obj4(
            "type", JsonValue::string("tool_result"),
            "tool_use_id", jstring(&r.tool_use_id),
            "content", jstring(&r.content),
            "is_error", JsonValue::Bool(r.is_error),
        ),
    }
}

/// Each block in Anthropic's format.
pub open spec fn anthropic_blocks(bs: Seq<BlockView>) -> Seq<JsonView> {
    bs.map_values(|b: BlockView| anthropic_block(b))
}

fn blocks_to_anthropic(blocks: &Vec<ContentBlock>) -> (j: JsonValue)
    ensures
        jview(j) == JsonView::Array(anthropic_blocks(blocks_view(blocks@))),
{
    let ghost bs = blocks_view(blocks@);
    let mut out: Vec<JsonValue> = Vec::new();
    let mut i: usize = 0;
    while i < blocks.len()
        invariant
            i <= blocks.len(),
            bs == blocks_view(blocks@),
            jview_items(out@) == anthropic_blocks(bs.subrange(0, i as int)),
        decreases blocks.len() - i,
    {
        let x = block_to_anthropic(&blocks[i]);
        proof {
            lemma_jview_items_push(out@, x);
            assert(anthropic_blocks(bs.subrange(0, i + 1)) =~= anthropic_blocks(bs.subrange(0, i as int)).push(anthropic_block(bs[i as int])));
        }
        out.push(x);
        i = i + 1;
    }
    assert(bs.subrange(0, blocks.len() as int) =~= bs);
    JsonValue::Array(out)
}

/// The role a message is sent under in Anthropic's and Gemini's formats:
/// tool results go in user messages.
pub open spec fn sender_is_user(m: MessageView) -> bool {
    !(m is Assistant)
}

/// The blocks of a message.
pub open spec fn message_blocks(m: MessageView) -> Seq<BlockView> {
    match m {
        MessageView::User(b) => b,
        MessageView::Assistant(b) => b,
        MessageView::ToolResult(b) => b,
    }
}

/// A message in Anthropic's format.
pub open spec fn anthropic_message(m: MessageView) -> JsonView {
    JsonView::Object(seq![
        ("role"@, js(if sender_is_user(m) { "user"@ } else { "assistant"@ })),
        ("content"@, JsonView::Array(anthropic_blocks(message_blocks(m)))),
    ])
}

pub(crate) fn content_of(m: &Message) -> (c: &Vec<ContentBlock>)
    ensures
        blocks_view(c@) == message_blocks(m@),
{
    match m {
        Message::User(u) => &u.content,
        Message::Assistant(a) => &a.content,
        Message::ToolResult(t) => &t.content,
    }
}

/// The conversation in Anthropic's format: one message per message, tool
/// results sent as the user.
pub fn to_anthropic_messages(messages: &[Message]) -> (r: Vec<JsonValue>)
    ensures
        jview_items(r@) == messages_view(messages@).map_values(|m: MessageView| anthropic_message(m)),
{
    let ghost ms = messages_view(messages@);
    let mut out: Vec<JsonValue> = Vec::new();
    let mut i: usize = 0;
    while i < messages.len()
        invariant
            i <= messages.len(),
            ms == messages_view(messages@),
            jview_items(out@) == ms.subrange(0, i as int).map_values(|m: MessageView| anthropic_message(m)),
        decreases messages.len() - i,
    {
        let m = &messages[i];
        let role = match m {
            Message::Assistant(_) => JsonValue::string("assistant"),
            _ => JsonValue::string("user"),
        };
        let x = obj2("role", role, "content", blocks_to_anthropic(content_of(m)));
        proof {
            lemma_jview_items_push(out@, x);
            assert(ms.subrange(0, i + 1).map_values(|m: MessageView| anthropic_message(m))
                =~= ms.subrange(0, i as int).map_values(|m: MessageView| anthropic_message(m)).push(anthropic_message(ms[i as int])));
        }
        out.push(x);
        i = i + 1;
    }
    assert(ms.subrange(0, messages.len() as int) =~= ms);
    out
}

// ---------------------------------------------------------------------
// Gemini
// ---------------------------------------------------------------------

/// A content block as a Gemini part.
pub open spec fn gemini_part(b: BlockView) -> JsonView {
    match b {
        BlockView::Text(t) => JsonView::Object(seq![("text"@, js(t))]),
        BlockView::Thinking(t) => JsonView::Object(seq![("thought"@, JsonView::Bool(true)), ("text"@, js(t))]),
        BlockView::Image { media_type, data } => JsonView::Object(seq![
            ("inlineData"@, JsonView::Object(seq![("mimeType"@, js(media_type)), ("data"@, js(data))])),
        ]),
        BlockView::ToolUse { id, name, input } => JsonView::Object(seq![
            ("functionCall"@, JsonView::Object(seq![("name"@, js(name)), ("args"@, input)])),
        ]),
        BlockView::ToolResult { tool_use_id, content, is_error } => JsonView::Object(seq![
            ("functionResponse"@, JsonView::Object(seq![
                ("name"@, js(tool_use_id)),
                ("response"@, JsonView::Object(seq![("content"@, js(content))])),
            ])),
        ]),
    }
}

/// A content block as a Gemini part.
pub fn block_to_gemini_part(block: &ContentBlock) -> (j: JsonValue)
    ensures
        jview(j) == gemini_part(block@),
{
    match block {
        ContentBlock::Text(t) => obj1("text", jstring(&t.text)),
        ContentBlock::Thinking(t) => obj2("thought", JsonValue::Bool(true), "text", jstring(&t.thinking)),
        ContentBlock::Image(img) => obj1(
            "inlineData",
            obj2("mimeType", jstring(&img.media_type), "data", jstring(&img.data)),
        ),
        ContentBlock::ToolUse(tc) => obj1(
            "functionCall",
            obj2("name", jstring(&tc.name), "args", tc.input.duplicate()),
        ),
        ContentBlock::ToolResult(r) => obj1(
            "functionResponse",
            obj2("name", jstring(&r.tool_use_id), "response", obj1("content", jstring(&r.content))),
        ),
    }
}

/// Each block as a Gemini part.
pub open spec fn gemini_parts(bs: Seq<BlockView>) -> Seq<JsonView> {
    bs.map_values(|b: BlockView| gemini_part(b))
}

fn blocks_to_gemini(blocks: &Vec<ContentBlock>) -> (j: JsonValue)
    ensures
        jview(j) == JsonView::Array(gemini_parts(blocks_view(blocks@))),
{
    let ghost bs = blocks_view(blocks@);
    let mut out: Vec<JsonValue> = Vec::new();
    let mut i: usize = 0;
    while i < blocks.len()
        invariant
            i <= blocks.len(),
            bs == blocks_view(blocks@),
            jview_items(out@) == gemini_parts(bs.subrange(0, i as int)),
        decreases blocks.len() - i,
    {
        let x = block_to_gemini_part(&blocks[i]);
        proof {
            lemma_jview_items_push(out@, x);
            assert(gemini_parts(bs.subrange(0, i + 1)) =~= gemini_parts(bs.subrange(0, i as int)).push(gemini_part(bs[i as int])));
        }
        out.push(x);
        i = i + 1;
    }
    assert(bs.subrange(0, blocks.len() as int) =~= bs);
    JsonValue::Array(out)
}

/// A message in Gemini's format.
pub open spec fn gemini_content(m: MessageView) -> JsonView {
    JsonView::Object(seq![
        ("role"@, js(if sender_is_user(m) { "user"@ } else { "model"@ })),
        ("parts"@, JsonView::Array(gemini_parts(message_blocks(m)))),
    ])
}

/// The conversation in Gemini's format: one content per message, the
/// assistant as `model`, tool results sent as the user.
pub fn to_gemini_contents(messages: &[Message]) -> (r: Vec<JsonValue>)
    ensures
        jview_items(r@) == messages_view(messages@).map_values(|m: MessageView| gemini_content(m)),
{
    let ghost ms = messages_view(messages@);
    let mut out: Vec<JsonValue> = Vec::new();
    let mut i: usize = 0;
    while i < messages.len()
        invariant
            i <= messages.len(),
            ms == messages_view(messages@),
            jview_items(out@) == ms.subrange(0, i as int).map_values(|m: MessageView| gemini_content(m)),
        decreases messages.len() - i,
    {
        let m = &messages[i];
        let role = match m {
            Message::Assistant(_) => JsonValue::string("model"),
            _ => JsonValue::string("user"),
        };
        let x = obj2("role", role, "parts", blocks_to_gemini(content_of(m)));
        proof {
            lemma_jview_items_push(out@, x);
            assert(ms.subrange(0, i + 1).map_values(|m: MessageView| gemini_content(m))
                =~= ms.subrange(0, i as int).map_values(|m: MessageView| gemini_content(m)).push(gemini_content(ms[i as int])));
        }
        out.push(x);
        i = i + 1;
    }
    assert(ms.subrange(0, messages.len() as int) =~= ms);
    out
}

// ---------------------------------------------------------------------
// OpenAI
// ---------------------------------------------------------------------

/// The user message that carries gathered texts: none for no text, the
/// text itself for one, the list of texts for more.
pub open spec fn user_texts_message(texts: Seq<JsonView>) -> Seq<JsonView> {
    if texts.len() == 0 {
        Seq::empty()
    } else if texts.len() == 1 {
        seq![JsonView::Object(seq![("role"@, js("user"@)), ("content"@, texts[0])])]
    } else {
        seq![JsonView::Object(seq![("role"@, js("user"@)), ("content"@, JsonView::Array(texts))])]
    }
}

/// A tool result as an OpenAI `tool` message.
pub open spec fn tool_message(tool_use_id: Seq<char>, content: Seq<char>) -> JsonView {
    JsonView::Object(seq![("role"@, js("tool"@)), ("tool_call_id"@, js(tool_use_id)), ("content"@, js(content))])
}

/// An image as a data URL.
pub open spec fn data_url(media_type: Seq<char>, data: Seq<char>) -> Seq<char> {
    "data:"@ + media_type + ";base64,"@ + data
}

/// The messages made so far from a user message's blocks, and the texts
/// gathered since the last tool result.
pub open spec fn openai_user_scan(bs: Seq<BlockView>) -> (Seq<JsonView>, Seq<JsonView>)
    decreases bs.len(),
{
    if bs.len() == 0 {
        (Seq::empty(), Seq::empty())
    } else {
        let prev = openai_user_scan(bs.drop_last());
        match bs.last() {
            BlockView::Text(t) => (prev.0, prev.1.push(js(t))),
            BlockView::Image { media_type, data } => (prev.0, prev.1.push(js(data_url(media_type, data)))),
            BlockView::ToolResult { tool_use_id, content, is_error } => (
                (prev.0 + user_texts_message(prev.1)).push(tool_message(tool_use_id, content)),
                Seq::empty(),
            ),
            _ => prev,
        }
    }
}

/// A user message in OpenAI's format: its texts and images as user
/// messages, each tool result as a `tool` message of its own, in order.
pub open spec fn openai_user(bs: Seq<BlockView>) -> Seq<JsonView> {
    openai_user_scan(bs).0 + user_texts_message(openai_user_scan(bs).1)
}

/// The texts of the text blocks, joined.
pub open spec fn joined_text(bs: Seq<BlockView>) -> Seq<char>
    decreases bs.len(),
{
    if bs.len() == 0 {
        Seq::empty()
    } else {
        match bs.last() {
            BlockView::Text(t) => joined_text(bs.drop_last()) + t,
            _ => joined_text(bs.drop_last()),
        }
    }
}

/// The number of text blocks.
pub open spec fn text_blocks(bs: Seq<BlockView>) -> nat
    decreases bs.len(),
{
    if bs.len() == 0 {
        0
    } else {
        text_blocks(bs.drop_last()) + if bs.last() is Text { 1nat } else { 0nat }
    }
}

/// A tool call in OpenAI's format, with its arguments given as `arguments`.
pub open spec fn openai_tool_call(id: Seq<char>, name: Seq<char>, arguments: JsonView) -> JsonView {
    JsonView::Object(seq![
        ("id"@, js(id)),
        ("type"@, js("function"@)),
        ("function"@, JsonView::Object(seq![("name"@, js(name)), ("arguments"@, arguments)])),
    ])
}

/// The tool calls of an assistant message, each with its input as it is.
pub open spec fn openai_tool_calls(bs: Seq<BlockView>) -> Seq<JsonView>
    decreases bs.len(),
{
    if bs.len() == 0 {
        Seq::empty()
    } else {
        match bs.last() {
            BlockView::ToolUse { id, name, input } => openai_tool_calls(bs.drop_last()).push(openai_tool_call(id, name, input)),
            _ => openai_tool_calls(bs.drop_last()),
        }
    }
}

/// An assistant message in OpenAI's format: its texts joined as `content`
/// when it has text blocks, and its tool calls when it has any.
pub open spec fn openai_assistant(bs: Seq<BlockView>) -> JsonView {
    JsonView::Object(openai_assistant_members(bs))
}

/// The members of an assistant message in OpenAI's format.
pub open spec fn openai_assistant_members(bs: Seq<BlockView>) -> Seq<(Seq<char>, JsonView)> {
    seq![("role"@, js("assistant"@))]
            + (if text_blocks(bs) > 0 { seq![("content"@, js(joined_text(bs)))] } else { Seq::empty() })
            + (if openai_tool_calls(bs).len() > 0 {
                seq![("tool_calls"@, JsonView::Array(openai_tool_calls(bs)))]
            } else {
                Seq::empty()
            })
}

/// The tool results of a tool-result message, as `tool` messages.
pub open spec fn openai_tool_results(bs: Seq<BlockView>) -> Seq<JsonView>
    decreases bs.len(),
{
    if bs.len() == 0 {
        Seq::empty()
    } else {
        match bs.last() {
            BlockView::ToolResult { tool_use_id, content, is_error } =>
                openai_tool_results(bs.drop_last()).push(tool_message(tool_use_id, content)),
            _ => openai_tool_results(bs.drop_last()),
        }
    }
}

/// One message in OpenAI's format.
pub open spec fn openai_message(m: MessageView) -> Seq<JsonView> {
    match m {
        MessageView::User(bs) => openai_user(bs),
        MessageView::Assistant(bs) => seq![openai_assistant(bs)],
        MessageView::ToolResult(bs) => openai_tool_results(bs),
    }
}

/// The conversation in OpenAI's format.
pub open spec fn openai_messages(ms: Seq<MessageView>) -> Seq<JsonView>
    decreases ms.len(),
{
    if ms.len() == 0 {
        Seq::empty()
    } else {
        openai_messages(ms.drop_last()) + openai_message(ms.last())
    }
}

/// Moves the gathered texts into a user message at the end of `result`.
pub fn flush_openai_texts(texts: &mut Vec<JsonValue>, result: &mut Vec<JsonValue>)
    ensures
        final(texts)@.len() == 0,
        jview_items(final(result)@) == jview_items(old(result)@) + user_texts_message(jview_items(old(texts)@)),
{
    proof { crate::json::lemma_jview_items(texts@); }
    if texts.len() == 0 {
        assert(jview_items(result@) + user_texts_message(jview_items(texts@)) =~= jview_items(result@));
        return;
    }
    let mut all: Vec<JsonValue> = Vec::new();
    all.append(texts);
    let content = if all.len() == 1 {
        all.pop().unwrap()
    } else {
        JsonValue::Array(all)
    };
    let msg = obj2("role", JsonValue::string("user"), "content", content);
    proof { lemma_jview_items_push(result@, msg); }
    result.push(msg);
}

pub(crate) fn push_json(out: &mut Vec<JsonValue>, x: JsonValue)
    ensures
        jview_items(final(out)@) == jview_items(old(out)@).push(jview(x)),
{
    proof { lemma_jview_items_push(out@, x); }
    out.push(x);
}

pub(crate) fn tool_message_of(tool_use_id: &String, content: &String) -> (j: JsonValue)
    ensures
        jview(j) == tool_message(tool_use_id@, content@),
{
    obj3("role", JsonValue::string("tool"), "tool_call_id", jstring(tool_use_id), "content", jstring(content))
}

/// `data:<media type>;base64,<data>`.
pub fn data_url_of(media_type: &str, data: &str) -> (s: String)
    ensures
        s@ == data_url(media_type@, data@),
{
    let mut s = String::new();
    proof { reveal_strlit("data:"); reveal_strlit(";base64,"); }
    push_str(&mut s, "data:");
    push_str(&mut s, media_type);
    push_str(&mut s, ";base64,");
    push_str(&mut s, data);
    s
}

fn openai_user_into(blocks: &Vec<ContentBlock>, result: &mut Vec<JsonValue>)
    ensures
        jview_items(final(result)@) == jview_items(old(result)@) + openai_user(blocks_view(blocks@)),
{
    let ghost bs = blocks_view(blocks@);
    let ghost base = jview_items(result@);
    let mut texts: Vec<JsonValue> = Vec::new();
    let mut i: usize = 0;
    assert(base + openai_user_scan(bs.subrange(0, 0)).0 =~= base);
    while i < blocks.len()
        invariant
            i <= blocks.len(),
            bs == blocks_view(blocks@),
            jview_items(result@) == base + openai_user_scan(bs.subrange(0, i as int)).0,
            jview_items(texts@) == openai_user_scan(bs.subrange(0, i as int)).1,
        decreases blocks.len() - i,
    {
        let ghost prev = openai_user_scan(bs.subrange(0, i as int));
        proof { assert(bs.subrange(0, i + 1).drop_last() =~= bs.subrange(0, i as int)); }
        match &blocks[i] {
            ContentBlock::Text(t) => {
                push_json(&mut texts, jstring(&t.text));
            },
            ContentBlock::Image(img) => {
                let url = data_url_of(img.media_type.as_str(), img.data.as_str());
                push_json(&mut texts, JsonValue::Str(url));
            },
            ContentBlock::ToolResult(r) => {
                flush_openai_texts(&mut texts, result);
                push_json(result, tool_message_of(&r.tool_use_id, &r.content));
                proof {
                    assert(jview_items(texts@) =~= Seq::<JsonView>::empty());
                    assert(base + (prev.0 + user_texts_message(prev.1)).push(tool_message(r.tool_use_id@, r.content@))
                        =~= (base + prev.0 + user_texts_message(prev.1)).push(tool_message(r.tool_use_id@, r.content@)));
                }
            },
            _ => {},
        }
        i = i + 1;
    }
    assert(bs.subrange(0, blocks.len() as int) =~= bs);
    let ghost scanned = openai_user_scan(bs);
    flush_openai_texts(&mut texts, result);
    assert(base + scanned.0 + user_texts_message(scanned.1) =~= base + openai_user(bs));
}

fn openai_assistant_of(blocks: &Vec<ContentBlock>) -> (j: JsonValue)
    ensures
        jview(j) == openai_assistant(blocks_view(blocks@)),
{
    let ghost bs = blocks_view(blocks@);
    let mut text = String::new();
    let mut n_text: usize = 0;
    let mut calls: Vec<JsonValue> = Vec::new();
    let mut i: usize = 0;
    while i < blocks.len()
        invariant
            i <= blocks.len(),
            bs == blocks_view(blocks@),
            text@ == joined_text(bs.subrange(0, i as int)),
            n_text == text_blocks(bs.subrange(0, i as int)),
            n_text <= i,
            jview_items(calls@) == openai_tool_calls(bs.subrange(0, i as int)),
        decreases blocks.len() - i,
    {
        proof { assert(bs.subrange(0, i + 1).drop_last() =~= bs.subrange(0, i as int)); }
        match &blocks[i] {
            ContentBlock::Text(t) => {
                push_str(&mut text, t.text.as_str());
                n_text = n_text + 1;
            },
            ContentBlock::ToolUse(tc) => {
                let f = obj2("name", jstring(&tc.name), "arguments", tc.input.duplicate());
                let c = obj3("id", jstring(&tc.id), "type", JsonValue::string("function"), "function", f);
                push_json(&mut calls, c);
            },
            _ => {},
        }
        i = i + 1;
    }
    assert(bs.subrange(0, blocks.len() as int) =~= bs);
    let mut members: Vec<(String, JsonValue)> = Vec::new();
    members.push(("role".to_string(), JsonValue::string("assistant")));
    if n_text > 0 {
        members.push(("content".to_string(), JsonValue::Str(text)));
    }
    if calls.len() > 0 {
        proof { crate::json::lemma_jview_items(calls@); }
        members.push(("tool_calls".to_string(), JsonValue::Array(calls)));
    }
    proof {
        lemma_jview_members(members@);
        assert(jview_members(members@) =~= openai_assistant_members(bs));
    }
    JsonValue::Object(members)
}

pub(crate) fn openai_tool_results_into(blocks: &Vec<ContentBlock>, result: &mut Vec<JsonValue>)
    ensures
        jview_items(final(result)@) == jview_items(old(result)@) + openai_tool_results(blocks_view(blocks@)),
{
    let ghost bs = blocks_view(blocks@);
    let ghost base = jview_items(result@);
    let mut i: usize = 0;
    assert(base + openai_tool_results(bs.subrange(0, 0)) =~= base);
    while i < blocks.len()
        invariant
            i <= blocks.len(),
            bs == blocks_view(blocks@),
            jview_items(result@) == base + openai_tool_results(bs.subrange(0, i as int)),
        decreases blocks.len() - i,
    {
        proof { assert(bs.subrange(0, i + 1).drop_last() =~= bs.subrange(0, i as int)); }
        if let ContentBlock::ToolResult(r) = &blocks[i] {
            let ghost prev = openai_tool_results(bs.subrange(0, i as int));
            push_json(result, tool_message_of(&r.tool_use_id, &r.content));
            assert(base + prev.push(tool_message(r.tool_use_id@, r.content@)) =~= (base + prev).push(tool_message(r.tool_use_id@, r.content@)));
        }
        i = i + 1;
    }
    assert(bs.subrange(0, blocks.len() as int) =~= bs);
}

/// The conversation in OpenAI's chat format: a user message's texts and
/// images become user messages and each of its tool results a `tool`
/// message, in order; an assistant message keeps its joined text and its
/// tool calls; a tool-result message becomes `tool` messages.
pub fn to_openai_messages(messages: &[Message]) -> (r: Vec<JsonValue>)
    ensures
        jview_items(r@) == openai_messages(messages_view(messages@)),
{
    let ghost ms = messages_view(messages@);
    let mut out: Vec<JsonValue> = Vec::new();
    let mut i: usize = 0;
    while i < messages.len()
        invariant
            i <= messages.len(),
            ms == messages_view(messages@),
            jview_items(out@) == openai_messages(ms.subrange(0, i as int)),
        decreases messages.len() - i,
    {
        proof { assert(ms.subrange(0, i + 1).drop_last() =~= ms.subrange(0, i as int)); }
        match &messages[i] {
            Message::User(u) => openai_user_into(&u.content, &mut out),
            Message::Assistant(a) => {
                let ghost before = jview_items(out@);
                push_json(&mut out, openai_assistant_of(&a.content));
                assert(before.push(openai_assistant(blocks_view(a.content@))) =~= before + seq![openai_assistant(blocks_view(a.content@))]);
            },
            Message::ToolResult(t) => openai_tool_results_into(&t.content, &mut out),
        }
        i = i + 1;
    }
    assert(ms.subrange(0, messages.len() as int) =~= ms);
    out
}

} // verus!
