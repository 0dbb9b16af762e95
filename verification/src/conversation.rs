//! The conversation as the session stores it and as the agent sends it:
//! content blocks to and from their stored JSON form, stop reasons to and
//! from their stored names, and the messages rebuilt from the session.

use vstd::prelude::*;
use crate::json::{jbool_of, jget, jstr_of, jview, jview_items, lemma_jview_items, JsonValue, JsonView};
use crate::message::{blocks_view, AssistantMessage, BlockView, ContentBlock, Message, MessageView, StopReason, UserMessage};
use crate::session_log::MessageEntry;
use crate::text::str_eq;
use crate::transform::{obj2, obj4, js};

verus! {

// ---------------------------------------------------------------------
// Stop reasons
// ---------------------------------------------------------------------

/// The stop reason a stored name stands for.
pub open spec fn stop_reason_named(s: Seq<char>) -> Option<StopReason> {
    if s == "stop"@ || s == "end_turn"@ {
        Some(StopReason::Stop)
    } else if s == "tool_use"@ {
        Some(StopReason::ToolUse)
    } else if s == "length"@ || s == "max_tokens"@ {
        Some(StopReason::Length)
    } else if s == "error"@ {
        Some(StopReason::Error)
    } else if s == "aborted"@ {
        Some(StopReason::Aborted)
    } else {
        None
    }
}

/// The stop reason a stored name stands for, if any.
pub fn parse_stop_reason(s: &str) -> (r: Option<StopReason>)
    ensures
        r == stop_reason_named(s@),
{
    if str_eq(s, "stop") || str_eq(s, "end_turn") {
        Some(StopReason::Stop)
    } else if str_eq(s, "tool_use") {
        Some(StopReason::ToolUse)
    } else if str_eq(s, "length") || str_eq(s, "max_tokens") {
        Some(StopReason::Length)
    } else if str_eq(s, "error") {
        Some(StopReason::Error)
    } else if str_eq(s, "aborted") {
        Some(StopReason::Aborted)
    } else {
        None
    }
}

/// The name under which a stop reason is stored: its variant's name in
/// lower case.
pub open spec fn stop_reason_label(r: StopReason) -> Seq<char> {
    match r {
        StopReason::Stop => "stop"@,
        StopReason::ToolUse => "tooluse"@,
        StopReason::Length => "length"@,
        StopReason::Error => "error"@,
        StopReason::Aborted => "aborted"@,
    }
}

/// The name under which a stop reason is stored.
pub fn stop_reason_name(r: StopReason) -> (s: String)
    ensures
        s@ == stop_reason_label(r),
{
    match r {
        StopReason::Stop => "stop".to_string(),
        StopReason::ToolUse => "tooluse".to_string(),
        StopReason::Length => "length".to_string(),
        StopReason::Error => "error".to_string(),
        StopReason::Aborted => "aborted".to_string(),
    }
}

// ---------------------------------------------------------------------
// Content blocks and their stored form
// ---------------------------------------------------------------------

/// A string member, or empty text when there is none.
pub open spec fn str_or_empty(j: JsonView, key: Seq<char>) -> Seq<char> {
    match jstr_of(jget(j, key)) {
        Some(s) => s,
        None => Seq::empty(),
    }
}

/// The block a stored JSON block stands for: text, a tool call or a tool
/// result by its `type`, with missing members empty (the input of a call
/// `null`, a result not an error); any other value stands for no block.
pub open spec fn stored_block(b: JsonView) -> Option<BlockView> {
    match jstr_of(jget(b, "type"@)) {
        Some(t) => if t == "text"@ {
            Some(BlockView::Text(str_or_empty(b, "text"@)))
        } else if t == "tool_use"@ {
            Some(BlockView::ToolUse {
                id: str_or_empty(b, "id"@),
                name: str_or_empty(b, "name"@),
                input: match jget(b, "input"@) {
                    Some(v) => v,
                    None => JsonView::Null,
                },
            })
        } else if t == "tool_result"@ {
            Some(BlockView::ToolResult {
                tool_use_id: str_or_empty(b, "tool_use_id"@),
                content: str_or_empty(b, "content"@),
                is_error: match jbool_of(jget(b, "is_error"@)) {
                    Some(e) => e,
                    None => false,
                },
            })
        } else {
            None
        },
        None => None,
    }
}

/// The blocks of stored blocks, in order, leaving out those that stand for
/// none.
pub open spec fn stored_blocks(bs: Seq<JsonView>) -> Seq<BlockView>
    decreases bs.len(),
{
    if bs.len() == 0 {
        Seq::empty()
    } else {
        let rest = stored_blocks(bs.drop_last());
        match stored_block(bs.last()) {
            Some(b) => rest.push(b),
            None => rest,
        }
    }
}

/// The blocks of stored content: none unless it is an array.
pub open spec fn stored_content(content: JsonView) -> Seq<BlockView> {
    match content {
        JsonView::Array(bs) => stored_blocks(bs),
        _ => Seq::empty(),
    }
}

fn member_str(b: &JsonValue, key: &str) -> (r: String)
    ensures
        r@ == str_or_empty(jview(*b), key@),
{
    match b.get(key) {
        Some(v) => match v.as_str() {
            Some(s) => s.to_string(),
            None => String::new(),
        },
        None => String::new(),
    }
}

fn block_from(b: &JsonValue) -> (r: Option<ContentBlock>)
    ensures
        match r {
            Some(c) => stored_block(jview(*b)) == Some(c@),
            None => stored_block(jview(*b)) is None,
        },
{
    proof {
        reveal_strlit("type"); reveal_strlit("text"); reveal_strlit("tool_use"); reveal_strlit("tool_result");
        reveal_strlit("id"); reveal_strlit("name"); reveal_strlit("input"); reveal_strlit("tool_use_id");
        reveal_strlit("content"); reveal_strlit("is_error");
    }
    let t = match b.get("type") {
        Some(v) => match v.as_str() {
            Some(t) => t,
            None => return None,
        },
        None => return None,
    };
    if str_eq(t, "text") {
        let text = member_str(b, "text");
        Some(ContentBlock::text(text.as_str()))
    } else if str_eq(t, "tool_use") {
        let id = member_str(b, "id");
        let name = member_str(b, "name");
        let input = match b.get("input") {
            Some(v) => v.duplicate(),
            None => JsonValue::Null,
        };
        Some(ContentBlock::tool_call(id.as_str(), name.as_str(), input))
    } else if str_eq(t, "tool_result") {
        let id = member_str(b, "tool_use_id");
        let content = member_str(b, "content");
        let is_error = match b.get("is_error") {
            Some(v) => match v.as_bool() {
                Some(e) => e,
                None => false,
            },
            None => false,
        };
        Some(ContentBlock::tool_result(id.as_str(), content.as_str(), is_error))
    } else {
        None
    }
}

/// The blocks of a message's stored content.
pub fn parse_content_blocks(content: &JsonValue) -> (r: Vec<ContentBlock>)
    ensures
        blocks_view(r@) == stored_content(jview(*content)),
{
    match content.as_array() {
        Some(items) => {
            proof { lemma_jview_items(items@); }
            let ghost iv = jview_items(items@);
            let mut r: Vec<ContentBlock> = Vec::new();
            let mut i: usize = 0;
            while i < items.len()
                invariant
                    i <= items.len(),
                    iv == jview_items(items@),
                    iv.len() == items@.len(),
                    forall|k: int| 0 <= k < items@.len() ==> #[trigger] iv[k] == jview(items@[k]),
                    blocks_view(r@) == stored_blocks(iv.take(i as int)),
                decreases items.len() - i,
            {
                assert(iv.take(i + 1).drop_last() =~= iv.take(i as int));
                assert(iv.take(i + 1).last() == jview(items@[i as int]));
                let ghost before = r@;
                match block_from(&items[i]) {
                    Some(b) => {
                        r.push(b);
                        assert(blocks_view(r@) =~= blocks_view(before).push(b@));
                    },
                    None => {},
                }
                i = i + 1;
            }
            assert(iv.take(iv.len() as int) =~= iv);
            r
        },
        None => {
            let r: Vec<ContentBlock> = Vec::new();
            assert(blocks_view(r@) =~= Seq::<BlockView>::empty());
            r
        },
    }
}

/// The stored form of a block: text, a tool call and a tool result with
/// their members; other blocks are stored as an `[unsupported]` text.
pub open spec fn block_json(b: BlockView) -> JsonView {
    match b {
        BlockView::Text(t) => JsonView::Object(seq![("type"@, js("text"@)), ("text"@, js(t))]),
        BlockView::ToolUse { id, name, input } => JsonView::Object(seq![
            ("type"@, js("tool_use"@)),
            ("id"@, js(id)),
            ("name"@, js(name)),
            ("input"@, input),
        ]),
        BlockView::ToolResult { tool_use_id, content, is_error } => JsonView::Object(seq![
            ("type"@, js("tool_result"@)),
            ("tool_use_id"@, js(tool_use_id)),
            ("content"@, js(content)),
            ("is_error"@, JsonView::Bool(is_error)),
        ]),
        _ => JsonView::Object(seq![("type"@, js("text"@)), ("text"@, js("[unsupported]"@))]),
    }
}

/// The stored form of a block.
pub fn content_block_to_json(block: &ContentBlock) -> (j: JsonValue)
    ensures
        jview(j) == block_json(block@),
{
    match block {
        ContentBlock::Text(t) => obj2("type", JsonValue::string("text"), "text", JsonValue::string(t.text.as_str())),
        ContentBlock::ToolUse(c) => obj4(
            "type",
            JsonValue::string("tool_use"),
            "id",
            JsonValue::string(c.id.as_str()),
            "name",
            JsonValue::string(c.name.as_str()),
            "input",
            c.input.duplicate(),
        ),
        ContentBlock::ToolResult(r) => obj4(
            "type",
            JsonValue::string("tool_result"),
            "tool_use_id",
            JsonValue::string(r.tool_use_id.as_str()),
            "content",
            JsonValue::string(r.content.as_str()),
            "is_error",
            JsonValue::Bool(r.is_error),
        ),
        _ => obj2("type", JsonValue::string("text"), "text", JsonValue::string("[unsupported]")),
    }
}

/// The stored form of a list of blocks: an array of their stored forms.
pub open spec fn blocks_json(bs: Seq<BlockView>) -> JsonView {
    JsonView::Array(bs.map_values(|b: BlockView| block_json(b)))
}

/// The stored form of a message's blocks.
pub fn blocks_to_json(blocks: &[ContentBlock]) -> (j: JsonValue)
    ensures
        jview(j) == blocks_json(blocks_view(blocks@)),
{
    let ghost bv = blocks_view(blocks@);
    let mut items: Vec<JsonValue> = Vec::new();
    let mut i: usize = 0;
    while i < blocks.len()
        invariant
            i <= blocks.len(),
            bv == blocks_view(blocks@),
            jview_items(items@) == bv.take(i as int).map_values(|b: BlockView| block_json(b)),
        decreases blocks.len() - i,
    {
        let j = content_block_to_json(&blocks[i]);
        let ghost before = items@;
        items.push(j);
        proof {
            crate::json::lemma_jview_items_push(before, j);
            assert(bv.take(i + 1).map_values(|b: BlockView| block_json(b))
                =~= bv.take(i as int).map_values(|b: BlockView| block_json(b)).push(block_json(bv[i as int])));
        }
        i = i + 1;
    }
    assert(bv.take(bv.len() as int) =~= bv);
    JsonValue::Array(items)
}

// ---------------------------------------------------------------------
// The messages of a session
// ---------------------------------------------------------------------

/// The message a stored message entry becomes, given its parsed content:
/// a user or assistant message with the blocks of the content, or none for
/// another role or when no block is left.
pub open spec fn entry_message(role: Seq<char>, content: JsonView) -> Option<MessageView> {
    let blocks = stored_content(content);
    if blocks.len() == 0 {
        None
    } else if role == "user"@ {
        Some(MessageView::User(blocks))
    } else if role == "assistant"@ {
        Some(MessageView::Assistant(blocks))
    } else {
        None
    }
}

/// The message of a stored entry whose content is `content`; an assistant
/// message keeps the entry's model, stop reason and timestamp.
pub fn message_of_entry(entry: &MessageEntry, content: &JsonValue) -> (r: Option<Message>)
    ensures
        match r {
            Some(m) => entry_message(entry.role@, jview(*content)) == Some(m@)
                && (m matches Message::Assistant(a) ==> {
                    &&& a.model == entry.model
                    &&& a.stop_reason == match entry.stop_reason {
                        Some(s) => stop_reason_named(s@),
                        None => None,
                    }
                    &&& a.timestamp == Some(entry.timestamp)
                    &&& a.usage is None
                }),
            None => entry_message(entry.role@, jview(*content)) is None,
        },
{
    proof { reveal_strlit("user"); reveal_strlit("assistant"); }
    let blocks = parse_content_blocks(content);
    if blocks.len() == 0 {
        return None;
    }
    if str_eq(entry.role.as_str(), "user") {
        Some(Message::User(UserMessage { role: "user".to_string(), content: blocks }))
    } else if str_eq(entry.role.as_str(), "assistant") {
        let stop_reason = match &entry.stop_reason {
            Some(s) => parse_stop_reason(s.as_str()),
            None => None,
        };
        let model = entry.model.clone();
        let timestamp = entry.timestamp.clone();
        Some(Message::Assistant(AssistantMessage {
            role: "assistant".to_string(),
            content: blocks,
            model,
            stop_reason,
            usage: None,
            timestamp: Some(timestamp),
        }))
    } else {
        None
    }
}

/// The messages of stored entries, in order, each given with its parsed
/// content: those that become a message.
pub open spec fn entries_messages(entries: Seq<(Seq<char>, JsonView)>) -> Seq<MessageView>
    decreases entries.len(),
{
    if entries.len() == 0 {
        Seq::empty()
    } else {
        let rest = entries_messages(entries.drop_last());
        match entry_message(entries.last().0, entries.last().1) {
            Some(m) => rest.push(m),
            None => rest,
        }
    }
}

/// The role and parsed content of stored entries.
pub open spec fn entries_roles(entries: Seq<(MessageEntry, JsonValue)>) -> Seq<(Seq<char>, JsonView)> {
    entries.map_values(|e: (MessageEntry, JsonValue)| (e.0.role@, jview(e.1)))
}

/// The messages of a session's message entries, each given with its
/// parsed content, in order.
pub fn build_messages(entries: &[(MessageEntry, JsonValue)]) -> (r: Vec<Message>)
    ensures
        crate::message::messages_view(r@) == entries_messages(entries_roles(entries@)),
{
    let ghost ev = entries_roles(entries@);
    let mut r: Vec<Message> = Vec::new();
    let mut i: usize = 0;
    while i < entries.len()
        invariant
            i <= entries.len(),
            ev == entries_roles(entries@),
            crate::message::messages_view(r@) == entries_messages(ev.take(i as int)),
        decreases entries.len() - i,
    {
        assert(ev.take(i + 1).drop_last() =~= ev.take(i as int));
        assert(ev.take(i + 1).last() == (entries@[i as int].0.role@, jview(entries@[i as int].1)));
        let ghost before = r@;
        match message_of_entry(&entries[i].0, &entries[i].1) {
            Some(m) => {
                r.push(m);
                assert(crate::message::messages_view(r@) =~= crate::message::messages_view(before).push(m@));
            },
            None => {},
        }
        i = i + 1;
    }
    assert(ev.take(ev.len() as int) =~= ev);
    r
}

} // verus!
