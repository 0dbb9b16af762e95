//! A session exported as a single HTML page: the user's messages as
//! preformatted text, the assistant's rendered from Markdown.

use vstd::prelude::*;
use crate::json::{jget, jstr_of, jview, jview_items, lemma_jview_items, JsonValue, JsonView};
use crate::markdown::{html_escape, markdown_html, markdown_to_simple_html};
use crate::skills::escape_xml_spec;
use crate::text::{join_lines, join_nl, push_str, spec_lines, str_eq, strs_view, to_chars};

verus! {

/// The text of a stored block that is a text block.
pub open spec fn block_plain_text(b: JsonView) -> Option<Seq<char>> {
    if jstr_of(jget(b, "type"@)) == Some("text"@) {
        jstr_of(jget(b, "text"@))
    } else {
        None
    }
}

/// The texts of the text blocks, in order.
pub open spec fn plain_texts(bs: Seq<JsonView>) -> Seq<Seq<char>>
    decreases bs.len(),
{
    if bs.len() == 0 {
        Seq::empty()
    } else {
        let rest = plain_texts(bs.drop_last());
        match block_plain_text(bs.last()) {
            Some(t) => rest.push(t),
            None => rest,
        }
    }
}

/// The plain text of stored content: its text blocks on lines of their
/// own, or nothing when it is not an array.
pub open spec fn content_plain_text(content: JsonView) -> Seq<char> {
    match content {
        JsonView::Array(bs) => join_nl(plain_texts(bs)),
        _ => Seq::empty(),
    }
}

/// The plain text of a message's stored content.
pub fn extract_text_from_content(content: &JsonValue) -> (r: String)
    ensures
        r@ == content_plain_text(jview(*content)),
{
    proof { reveal_strlit("type"); reveal_strlit("text"); }
    match content.as_array() {
        Some(items) => {
            proof { lemma_jview_items(items@); }
            let ghost iv = jview_items(items@);
            let mut texts: Vec<String> = Vec::new();
            let mut i: usize = 0;
            while i < items.len()
                invariant
                    i <= items.len(),
                    iv == jview_items(items@),
                    iv.len() == items@.len(),
                    forall|k: int| 0 <= k < items@.len() ==> #[trigger] iv[k] == jview(items@[k]),
                    strs_view(texts@) == plain_texts(iv.take(i as int)),
                decreases items.len() - i,
            {
                assert(iv.take(i + 1).drop_last() =~= iv.take(i as int));
                assert(iv.take(i + 1).last() == jview(items@[i as int]));
                let b = &items[i];
                let is_text = match b.get("type") {
                    Some(t) => match t.as_str() {
                        Some(t) => str_eq(t, "text"),
                        None => false,
                    },
                    None => false,
                };
                if is_text {
                    match b.get("text") {
                        Some(v) => match v.as_str() {
                            Some(t) => {
                                let ghost before = strs_view(texts@);
                                texts.push(t.to_string());
                                assert(strs_view(texts@) =~= before.push(t@));
                            },
                            None => {},
                        },
                        None => {},
                    }
                }
                i = i + 1;
            }
            assert(iv.take(iv.len() as int) =~= iv);
            join_lines(texts.as_slice())
        },
        None => String::new(),
    }
}

/// The HTML of one message in an export: a user's text escaped inside
/// `<pre>`, an assistant's rendered from Markdown; nothing for other roles
/// or messages without text.
pub open spec fn message_html(role: Seq<char>, text: Seq<char>) -> Seq<char> {
    if text.len() == 0 {
        Seq::empty()
    } else if role == "user"@ {
        "<div class=\"msg user\"><div class=\"role\">You</div><div class=\"content\"><pre>"@
            + escape_xml_spec(text) + "</pre></div></div>\n"@
    } else if role == "assistant"@ {
        "<div class=\"msg assistant\"><div class=\"role\">Assistant</div><div class=\"content\">"@
            + markdown_html(spec_lines(text)).0 + "</div></div>\n"@
    } else {
        Seq::empty()
    }
}

/// The HTML of the messages, given as role and stored content, in order.
pub open spec fn messages_html(messages: Seq<(Seq<char>, JsonView)>) -> Seq<char>
    decreases messages.len(),
{
    if messages.len() == 0 {
        Seq::empty()
    } else {
        messages_html(messages.drop_last())
            + message_html(messages.last().0, content_plain_text(messages.last().1))
    }
}

/// The page before the session's id.
pub const PAGE_HEAD: &'static str = "<!DOCTYPE html>
<html>
<head>
<meta charset=\"utf-8\">
<meta name=\"viewport\" content=\"width=device-width, initial-scale=1\">
<title>piso session ";

/// The page between the id in the title and the id in the body.
pub const PAGE_STYLE: &'static str = "</title>
<style>
body { font-family: -apple-system, sans-serif; max-width: 800px; margin: 0 auto; padding: 20px; background: #1a1a2e; color: #e0e0e0; }
.msg { margin: 16px 0; padding: 12px 16px; border-radius: 8px; }
.user { background: #16213e; border-left: 3px solid #0f3460; }
.assistant { background: #1a1a2e; border-left: 3px solid #e94560; }
.role { font-weight: bold; font-size: 0.85em; color: #888; margin-bottom: 4px; }
.content { line-height: 1.6; white-space: pre-wrap; }
.content pre { background: #0d1117; padding: 12px; border-radius: 4px; overflow-x: auto; }
.content code { background: #0d1117; padding: 2px 6px; border-radius: 3px; font-size: 0.9em; }
.content strong { color: #fff; }
.content h1, .content h2, .content h3 { color: #e94560; margin-top: 12px; }
.content ul, .content ol { padding-left: 20px; }
.content li { margin: 4px 0; }
</style>
</head>
<body>
<h1>piso session</h1>
<p style=\"color:#666\">ID: ";

/// The page after the messages.
pub const PAGE_TAIL: &'static str = "
</body>
</html>";

/// The exported page of the session `id` with these messages.
pub open spec fn session_page(id: Seq<char>, messages: Seq<(Seq<char>, JsonView)>) -> Seq<char> {
    PAGE_HEAD@ + id + PAGE_STYLE@ + id + "</p>\n"@ + messages_html(messages) + PAGE_TAIL@
}

/// The exported page of the session `id` whose messages are given as role
/// and stored content.
pub fn render_session_html(id: &str, messages: &[(String, JsonValue)]) -> (r: String)
    ensures
        r@ == session_page(id@, crate::compaction::messages_view(messages@)),
{
    let ghost mv = crate::compaction::messages_view(messages@);
    let mut body = String::new();
    let mut i: usize = 0;
    while i < messages.len()
        invariant
            i <= messages.len(),
            mv == crate::compaction::messages_view(messages@),
            body@ == messages_html(mv.take(i as int)),
        decreases messages.len() - i,
    {
        assert(mv.take(i + 1).drop_last() =~= mv.take(i as int));
        assert(mv.take(i + 1).last() == (messages@[i as int].0@, jview(messages@[i as int].1)));
        let text = extract_text_from_content(&messages[i].1);
        let role = messages[i].0.as_str();
        proof {
            reveal_strlit("user");
            reveal_strlit("assistant");
        }
        if to_chars(text.as_str()).len() > 0 {
            if str_eq(role, "user") {
                proof {
                    reveal_strlit("<div class=\"msg user\"><div class=\"role\">You</div><div class=\"content\"><pre>");
                    reveal_strlit("</pre></div></div>\n");
                }
                push_str(&mut body, "<div class=\"msg user\"><div class=\"role\">You</div><div class=\"content\"><pre>");
                let e = html_escape(text.as_str());
                push_str(&mut body, e.as_str());
                push_str(&mut body, "</pre></div></div>\n");
            } else if str_eq(role, "assistant") {
                proof {
                    reveal_strlit("<div class=\"msg assistant\"><div class=\"role\">Assistant</div><div class=\"content\">");
                    reveal_strlit("</div></div>\n");
                }
                push_str(&mut body, "<div class=\"msg assistant\"><div class=\"role\">Assistant</div><div class=\"content\">");
                let h = markdown_to_simple_html(text.as_str());
                push_str(&mut body, h.as_str());
                push_str(&mut body, "</div></div>\n");
            }
        }
        i = i + 1;
    }
    assert(mv.take(mv.len() as int) =~= mv);
    let mut page = String::new();
    proof { reveal_strlit("</p>\n"); }
    push_str(&mut page, PAGE_HEAD);
    push_str(&mut page, id);
    push_str(&mut page, PAGE_STYLE);
    push_str(&mut page, id);
    push_str(&mut page, "</p>\n");
    push_str(&mut page, body.as_str());
    push_str(&mut page, PAGE_TAIL);
    page
}

} // verus!
