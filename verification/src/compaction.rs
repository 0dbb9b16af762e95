//! Shortening a long conversation: when a session is long, the older
//! messages are turned into a transcript and sent to the model to be
//! summarised, keeping the most recent ones as they are.

use vstd::prelude::*;
use crate::json::{jget, jstr_of, jview, jview_items, lemma_jview_items, JsonValue, JsonView};
use crate::llm_stream::{EventView, StreamEvent};
use crate::message::{BlockView, CompletionRequest, Message, MessageView};
use crate::session_log::JsonlSession;
use crate::text::{join_lines, join_nl, push_str, str_eq, strs_view, to_chars};

verus! {

/// A session is compacted once it has more entries than this.
pub const MAX_ENTRIES: usize = 40;

/// The most recent messages are kept as they are.
pub const KEEP_RECENT: usize = 10;

/// The instructions given to the model that writes the summary.
pub const SUMMARIZE_PROMPT: &'static str = "You are a conversation summarizer. Summarize the conversation below into a concise summary that preserves:
1. Key decisions and conclusions
2. File paths that were read or modified
3. Important context the user provided
4. Tool calls that were made and their results

Output ONLY the summary text, no preamble.";

/// Whether the session has grown long enough to be compacted.
pub fn should_compact(session: &JsonlSession) -> (r: bool)
    ensures
        r == (session.entries_seq().len() > MAX_ENTRIES),
{
    session.len() > MAX_ENTRIES
}

/// What a content block adds to a transcript: the text of a text block,
/// the content of a tool result (empty when it is not a string), the name
/// of a tool call (`tool` when it has none); other blocks add nothing.
pub open spec fn block_summary(b: JsonView) -> Option<Seq<char>> {
    let t = jstr_of(jget(b, "type"@));
    if t == Some("text"@) {
        jstr_of(jget(b, "text"@))
    } else if t == Some("tool_result"@) {
        Some(
            match jstr_of(jget(b, "content"@)) {
                Some(c) => c,
                None => Seq::empty(),
            },
        )
    } else if t == Some("tool_use"@) {
        Some(
            match jstr_of(jget(b, "name"@)) {
                Some(n) => n,
                None => "tool"@,
            },
        )
    } else {
        None
    }
}

/// The texts the blocks add, in order.
pub open spec fn block_texts(bs: Seq<JsonView>) -> Seq<Seq<char>>
    decreases bs.len(),
{
    if bs.len() == 0 {
        Seq::empty()
    } else {
        let rest = block_texts(bs.drop_last());
        match block_summary(bs.last()) {
            Some(t) => rest.push(t),
            None => rest,
        }
    }
}

/// The text of a message's content: the texts of its blocks on lines of
/// their own, or nothing when the content is not an array.
pub open spec fn content_text(content: JsonView) -> Seq<char> {
    match content {
        JsonView::Array(bs) => join_nl(block_texts(bs)),
        _ => Seq::empty(),
    }
}

/// The transcript of messages given as role and content: a line
/// `[role] text` for each message whose text is not empty.
pub open spec fn transcript(messages: Seq<(Seq<char>, JsonView)>) -> Seq<char>
    decreases messages.len(),
{
    if messages.len() == 0 {
        Seq::empty()
    } else {
        let rest = transcript(messages.drop_last());
        let (role, content) = messages.last();
        let text = content_text(content);
        if text.len() == 0 {
            rest
        } else {
            rest + "["@ + role + "] "@ + text + "\n"@
        }
    }
}

/// The messages as role and the view of their content.
pub open spec fn messages_view(messages: Seq<(String, JsonValue)>) -> Seq<(Seq<char>, JsonView)> {
    messages.map_values(|m: (String, JsonValue)| (m.0@, jview(m.1)))
}

fn text_member<'a>(b: &'a JsonValue, key: &str) -> (r: Option<&'a str>)
    ensures
        match r {
            Some(s) => jstr_of(jget(jview(*b), key@)) == Some(s@),
            None => jstr_of(jget(jview(*b), key@)) is None,
        },
{
    match b.get(key) {
        Some(v) => v.as_str(),
        None => None,
    }
}

fn block_summary_of(b: &JsonValue) -> (r: Option<String>)
    ensures
        match r {
            Some(s) => block_summary(jview(*b)) == Some(s@),
            None => block_summary(jview(*b)) is None,
        },
{
    proof {
        reveal_strlit("type"); reveal_strlit("text"); reveal_strlit("tool_result");
        reveal_strlit("tool_use"); reveal_strlit("content"); reveal_strlit("name"); reveal_strlit("tool");
    }
    let t = text_member(b, "type");
    let (is_text, is_result, is_use) = match t {
        Some(t) => (str_eq(t, "text"), str_eq(t, "tool_result"), str_eq(t, "tool_use")),
        None => (false, false, false),
    };
    if is_text {
        match text_member(b, "text") {
            Some(s) => Some(s.to_string()),
            None => None,
        }
    } else if is_result {
        match text_member(b, "content") {
            Some(s) => Some(s.to_string()),
            None => Some(String::new()),
        }
    } else if is_use {
        match text_member(b, "name") {
            Some(s) => Some(s.to_string()),
            None => Some("tool".to_string()),
        }
    } else {
        None
    }
}

fn content_text_of(content: &JsonValue) -> (r: String)
    ensures
        r@ == content_text(jview(*content)),
{
    match content.as_array() {
        Some(blocks) => {
            proof { lemma_jview_items(blocks@); }
            let ghost bv = jview_items(blocks@);
            let mut texts: Vec<String> = Vec::new();
            let mut i: usize = 0;
            while i < blocks.len()
                invariant
                    i <= blocks.len(),
                    bv == jview_items(blocks@),
                    bv.len() == blocks@.len(),
                    forall|k: int| 0 <= k < blocks@.len() ==> #[trigger] bv[k] == jview(blocks@[k]),
                    strs_view(texts@) == block_texts(bv.take(i as int)),
                decreases blocks.len() - i,
            {
                assert(bv.take(i + 1).drop_last() =~= bv.take(i as int));
                assert(bv.take(i + 1).last() == jview(blocks@[i as int]));
                let ghost before = strs_view(texts@);
                match block_summary_of(&blocks[i]) {
                    Some(s) => {
                        texts.push(s);
                        assert(strs_view(texts@) =~= before.push(block_summary(bv[i as int])->0));
                    },
                    None => {},
                }
                i = i + 1;
            }
            assert(bv.take(bv.len() as int) =~= bv);
            join_lines(texts.as_slice())
        },
        None => {
            assert(!(jview(*content) is Array));
            String::new()
        },
    }
}

/// The transcript of the messages, each given as its role and content.
pub fn serialize_entries(messages: &[(String, JsonValue)]) -> (r: String)
    ensures
        r@ == transcript(messages_view(messages@)),
{
    let r = serialize_first(messages, messages.len());
    assert(messages_view(messages@).take(messages@.len() as int) =~= messages_view(messages@));
    r
}

fn serialize_first(messages: &[(String, JsonValue)], n: usize) -> (r: String)
    requires
        n <= messages@.len(),
    ensures
        r@ == transcript(messages_view(messages@).take(n as int)),
{
    let ghost mv = messages_view(messages@);
    let mut out = String::new();
    let mut i: usize = 0;
    while i < n
        invariant
            i <= n <= messages.len(),
            mv == messages_view(messages@),
            out@ == transcript(mv.take(i as int)),
        decreases n - i,
    {
        assert(mv.take(i + 1).drop_last() =~= mv.take(i as int));
        assert(mv.take(i + 1).last() == (messages@[i as int].0@, jview(messages@[i as int].1)));
        let text = content_text_of(&messages[i].1);
        if to_chars(text.as_str()).len() > 0 {
            proof { reveal_strlit("["); reveal_strlit("] "); reveal_strlit("\n"); }
            push_str(&mut out, "[");
            push_str(&mut out, messages[i].0.as_str());
            push_str(&mut out, "] ");
            push_str(&mut out, text.as_str());
            push_str(&mut out, "\n");
        }
        i = i + 1;
    }
    out
}

/// The messages that are summarised: all but the last `KEEP_RECENT`.
pub open spec fn summarised(messages: Seq<(Seq<char>, JsonView)>) -> Seq<(Seq<char>, JsonView)> {
    messages.take(messages.len() - KEEP_RECENT)
}

/// The request that asks for a summary of the older messages, or `None`
/// when there is nothing to summarise: no more than `KEEP_RECENT` messages,
/// or no text in the older ones.
pub fn compaction_request(
    messages: &[(String, JsonValue)],
    model: &str,
    api_key: &str,
    base_url: &Option<String>,
) -> (r: Option<CompletionRequest>)
    ensures
        match r {
            None => messages@.len() <= KEEP_RECENT
                || transcript(summarised(messages_view(messages@))).len() == 0,
            Some(req) => {
                &&& messages@.len() > KEEP_RECENT
                &&& transcript(summarised(messages_view(messages@))).len() > 0
                &&& req.model@ == model@
                &&& req.system_prompt matches Some(p) && p@ == SUMMARIZE_PROMPT@
                &&& req.messages@.len() == 1
                &&& req.messages@[0]@ == MessageView::User(seq![BlockView::Text(
                    "Summarize this conversation:\n\n"@ + transcript(summarised(messages_view(messages@))),
                )])
                &&& req.tools@.len() == 0
                &&& !req.thinking_enabled
                &&& req.thinking_budget is None
                &&& req.max_tokens == 2048
                &&& req.api_key@ == api_key@
                &&& match base_url {
                    Some(u) => req.base_url matches Some(v) && v@ == u@,
                    None => req.base_url is None,
                }
            },
        },
{
    if messages.len() <= KEEP_RECENT {
        return None;
    }
    let split = messages.len() - KEEP_RECENT;
    let text = serialize_first(messages, split);
    if to_chars(text.as_str()).len() == 0 {
        return None;
    }
    let mut prompt = String::new();
    proof { reveal_strlit("Summarize this conversation:\n\n"); }
    push_str(&mut prompt, "Summarize this conversation:\n\n");
    push_str(&mut prompt, text.as_str());
    let base = match base_url {
        Some(u) => Some(u.clone()),
        None => None,
    };
    let msgs = vec![Message::user_text(prompt.as_str())];
    Some(CompletionRequest {
        model: model.to_string(),
        system_prompt: Some(SUMMARIZE_PROMPT.to_string()),
        messages: msgs,
        tools: Vec::new(),
        thinking_enabled: false,
        thinking_budget: None,
        max_tokens: 2048,
        api_key: api_key.to_string(),
        base_url: base,
    })
}

/// Takes in one event of the summary stream (`None` for a failed read):
/// text is added to the summary; a stop or a failure ends the stream.
/// Answers whether to read on.
pub fn take_summary_event(summary: &mut String, event: Option<&StreamEvent>) -> (go_on: bool)
    ensures
        match event {
            Some(e) => match e@ {
                EventView::TextDelta(t) => go_on && final(summary)@ == old(summary)@ + t,
                EventView::Stop(_) => !go_on && final(summary)@ == old(summary)@,
                _ => go_on && final(summary)@ == old(summary)@,
            },
            None => !go_on && final(summary)@ == old(summary)@,
        },
{
    match event {
        Some(StreamEvent::TextDelta { text }) => {
            push_str(summary, text.as_str());
            true
        },
        Some(StreamEvent::Stop { .. }) => false,
        Some(_) => true,
        None => false,
    }
}

/// Whether compaction succeeded: the model wrote a summary.
pub fn summary_written(summary: &str) -> (r: bool)
    ensures
        r == (summary@.len() > 0),
{
    to_chars(summary).len() > 0
}

} // verus!
