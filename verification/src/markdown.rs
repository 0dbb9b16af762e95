//! A small Markdown-to-HTML converter for exported sessions: headings,
//! list items, paragraphs, fenced code, `**bold**` and `` `code` ``.

use vstd::prelude::*;
use crate::skills::escape_xml_spec;
use crate::text::{has_prefix, push_char, push_str, spec_lines, split_lines, starts_with_at, sub_chars, to_chars, from_chars, trim_start, trim_start_index};

verus! {

/// Escapes `&`, `<`, `>` and `"` for HTML.
pub fn html_escape(s: &str) -> (r: String)
    ensures
        r@ == escape_xml_spec(s@),
{
    crate::skills::escape_xml(s)
}

/// `s` with every `"$1"`, from left to right, replaced by `with`.
pub open spec fn replace_marker(s: Seq<char>, with: Seq<char>) -> Seq<char>
    decreases s.len(),
{
    if s.len() == 0 {
        Seq::empty()
    } else if s.len() >= 2 && s[0] == '$' && s[1] == '1' {
        with + replace_marker(s.skip(2), with)
    } else {
        seq![s[0]] + replace_marker(s.drop_first(), with)
    }
}

/// `i` is the first position of a backtick in `s`.
pub open spec fn first_backtick(s: Seq<char>, i: int) -> bool {
    0 <= i < s.len() && s[i] == '`' && forall|k: int| 0 <= k < i ==> s[k] != '`'
}

/// `i` is the first position of `"**"` in `s`.
pub open spec fn first_double_star(s: Seq<char>, i: int) -> bool {
    0 <= i && i + 1 < s.len() && s[i] == '*' && s[i + 1] == '*'
        && forall|k: int| 0 <= k < i ==> !(#[trigger] s[k] == '*' && s[k + 1] == '*')
}

/// The text of a span opened just before `s` and closed by a backtick, and
/// what follows the closing backtick; an unclosed span runs to the end.
pub open spec fn code_span(s: Seq<char>) -> (Seq<char>, Seq<char>) {
    if exists|i: int| first_backtick(s, i) {
        let i = choose|i: int| first_backtick(s, i);
        (s.take(i), s.skip(i + 1))
    } else {
        (s, Seq::empty())
    }
}

/// The text of a span opened just before `s` and closed by `"**"`, and
/// what follows; an unclosed span runs to the end.
pub open spec fn bold_span(s: Seq<char>) -> (Seq<char>, Seq<char>) {
    if exists|i: int| first_double_star(s, i) {
        let i = choose|i: int| first_double_star(s, i);
        (s.take(i), s.skip(i + 2))
    } else {
        (s, Seq::empty())
    }
}

pub proof fn lemma_code_span_shorter(s: Seq<char>)
    ensures
        code_span(s).1.len() <= s.len(),
{
    if exists|i: int| first_backtick(s, i) {
        let i = choose|i: int| first_backtick(s, i);
        assert(s.skip(i + 1).len() <= s.len());
    }
}

pub proof fn lemma_bold_span_shorter(s: Seq<char>)
    ensures
        bold_span(s).1.len() <= s.len(),
{
    if exists|i: int| first_double_star(s, i) {
        let i = choose|i: int| first_double_star(s, i);
        assert(s.skip(i + 2).len() <= s.len());
    }
}

/// The kind of inline span that one pass of `inline_replace` rewrites.
#[derive(Debug, Clone, Copy)]
pub enum InlineSpan {
    /// `**bold**`: opened and closed by two stars.
    Bold,
    /// `` `code` ``: opened and closed by a backtick.
    Code,
}

/// What `inline_replace` makes of `s`: each span of the given kind becomes
/// the replacement with `"$1"` standing for its text, and every other
/// character stays.
pub open spec fn inline_replace_spec(s: Seq<char>, span: InlineSpan, rep: Seq<char>) -> Seq<char>
    decreases s.len(),
{
    if s.len() == 0 {
        Seq::empty()
    } else if span == InlineSpan::Code && s[0] == '`' {
        let (code, rest) = code_span(s.drop_first());
        proof {
            lemma_code_span_shorter(s.drop_first());
        }
        replace_marker(rep, code) + inline_replace_spec(rest, span, rep)
    } else if span == InlineSpan::Bold && s.len() >= 2 && s[0] == '*' && s[1] == '*' {
        let (bold, rest) = bold_span(s.skip(2));
        proof {
            lemma_bold_span_shorter(s.skip(2));
        }
        replace_marker(rep, bold) + inline_replace_spec(rest, span, rep)
    } else {
        seq![s[0]] + inline_replace_spec(s.drop_first(), span, rep)
    }
}

fn replace_marker_exec(rep: &[char], with: &[char]) -> (r: String)
    ensures
        r@ == replace_marker(rep@, with@),
{
    let mut r = String::new();
    let mut i: usize = 0;
    assert(rep@.skip(0) =~= rep@);
    assert(r@ + replace_marker(rep@, with@) =~= replace_marker(rep@, with@));
    while i < rep.len()
        invariant
            i <= rep@.len(),
            r@ + replace_marker(rep@.skip(i as int), with@) == replace_marker(rep@, with@),
        decreases rep.len() - i,
    {
        let ghost t = rep@.skip(i as int);
        if i + 1 < rep.len() && rep[i] == '$' && rep[i + 1] == '1' {
            let ghost before = r@;
            let w = from_chars(with);
            push_str(&mut r, w.as_str());
            assert(t.skip(2) =~= rep@.skip(i + 2));
            assert(before + replace_marker(t, with@) == before + (with@ + replace_marker(t.skip(2), with@)));
            assert(r@ + replace_marker(rep@.skip(i + 2), with@) =~= before + (with@ + replace_marker(t.skip(2), with@)));
            i = i + 2;
        } else {
            let ghost before = r@;
            push_char(&mut r, rep[i]);
            assert(t.drop_first() =~= rep@.skip(i + 1));
            assert(t[0] == rep@[i as int]);
            assert(r@ + replace_marker(rep@.skip(i + 1), with@) =~= before + (seq![t[0]] + replace_marker(t.drop_first(), with@)));
            i = i + 1;
        }
    }
    assert(rep@.skip(rep@.len() as int) =~= Seq::<char>::empty());
    assert(r@ + Seq::<char>::empty() =~= r@);
    r
}

/// Replaces each span of the kind `span` by `replacement`, with `"$1"`
/// standing for the span's text; an unclosed span runs to the end.
pub fn inline_replace(text: &str, span: InlineSpan, replacement: &str) -> (r: String)
    ensures
        r@ == inline_replace_spec(text@, span, replacement@),
{
    let cs = to_chars(text);
    let rep = to_chars(replacement);
    let n = cs.len();
    let code_pass = match span {
        InlineSpan::Code => true,
        InlineSpan::Bold => false,
    };
    let mut r = String::new();
    let mut i: usize = 0;
    assert(cs@.skip(0) =~= cs@);
    assert(r@ + inline_replace_spec(cs@, span, rep@) =~= inline_replace_spec(cs@, span, rep@));
    while i < n
        invariant
            n == cs@.len(),
            cs@ == text@,
            rep@ == replacement@,
            code_pass == (span == InlineSpan::Code),
            i <= n,
            r@ + inline_replace_spec(cs@.skip(i as int), span, rep@) == inline_replace_spec(cs@, span, rep@),
        decreases n - i,
    {
        let ghost t = cs@.skip(i as int);
        let ghost before = r@;
        assert(t[0] == cs@[i as int]);
        if code_pass && cs[i] == '`' {
            let mut j = i + 1;
            while j < n && cs[j] != '`'
                invariant
                    i < j <= n,
                    n == cs@.len(),
                    forall|k: int| i < k < j ==> cs@[k] != '`',
                decreases n - j,
            {
                j = j + 1;
            }
            let code = sub_chars(cs.as_slice(), i + 1, j);
            let piece = replace_marker_exec(rep.as_slice(), code.as_slice());
            push_str(&mut r, piece.as_str());
            proof {
                let u = t.drop_first();
                assert(code@ =~= u.take(j - i - 1));
                if j < n {
                    assert(first_backtick(u, j - i - 1));
                    assert forall|i2: int| first_backtick(u, i2) implies i2 == j - i - 1 by {
                        if i2 < j - i - 1 {
                            assert(u[i2] == cs@[i + 1 + i2]);
                        } else if i2 > j - i - 1 {
                            assert(u[j - i - 1] == cs@[j as int]);
                        }
                    }
                    assert(u.skip(j - i) =~= cs@.skip(j + 1));
                } else {
                    assert forall|i2: int| !first_backtick(u, i2) by {
                        if 0 <= i2 < u.len() {
                            assert(u[i2] == cs@[i + 1 + i2]);
                        }
                    }
                    assert(u.take(j - i - 1) =~= u);
                    assert(cs@.skip(n as int) =~= Seq::<char>::empty());
                }
            }
            i = if j < n { j + 1 } else { j };
        } else if !code_pass && i + 1 < n && cs[i] == '*' && cs[i + 1] == '*' {
            let mut j = i + 2;
            while j < n && !(cs[j] == '*' && j + 1 < n && cs[j + 1] == '*')
                invariant
                    i + 2 <= j <= n,
                    n == cs@.len(),
                    forall|k: int| i + 2 <= k < j ==> !(#[trigger] cs@[k] == '*' && k + 1 < n && cs@[k + 1] == '*'),
                decreases n - j,
            {
                j = j + 1;
            }
            let bold = sub_chars(cs.as_slice(), i + 2, j);
            let piece = replace_marker_exec(rep.as_slice(), bold.as_slice());
            push_str(&mut r, piece.as_str());
            proof {
                let u = t.skip(2);
                assert(u =~= cs@.skip(i + 2));
                assert(bold@ =~= u.take(j - i - 2));
                if j < n {
                    assert(first_double_star(u, j - i - 2));
                    assert forall|i2: int| first_double_star(u, i2) implies i2 == j - i - 2 by {
                        if i2 < j - i - 2 {
                            assert(u[i2] == cs@[i + 2 + i2]);
                            assert(u[i2 + 1] == cs@[i + 3 + i2]);
                        } else if i2 > j - i - 2 {
                            assert(u[j - i - 2] == cs@[j as int]);
                            assert(u[j - i - 1] == cs@[j + 1]);
                        }
                    }
                    assert(u.skip(j - i) =~= cs@.skip(j + 2));
                } else {
                    assert forall|i2: int| !first_double_star(u, i2) by {
                        if 0 <= i2 && i2 + 1 < u.len() {
                            assert(u[i2] == cs@[i + 2 + i2]);
                            assert(u[i2 + 1] == cs@[i + 3 + i2]);
                        }
                    }
                    assert(u.take(j - i - 2) =~= u);
                    assert(cs@.skip(n as int) =~= Seq::<char>::empty());
                }
            }
            i = if j < n { j + 2 } else { j };
        } else {
            push_char(&mut r, cs[i]);
            proof {
                assert(t.drop_first() =~= cs@.skip(i + 1));
            }
            i = i + 1;
        }
    }
    assert(cs@.skip(n as int) =~= Seq::<char>::empty());
    r
}

/// Inline markup of one line of text: escaped, then `**bold**` spans made
/// `<strong>`, then `` `code` `` spans made `<code>`.
pub open spec fn inline_html_spec(text: Seq<char>) -> Seq<char> {
    inline_replace_spec(
        inline_replace_spec(escape_xml_spec(text), InlineSpan::Bold, "<strong>$1</strong>"@),
        InlineSpan::Code,
        "<code>$1</code>"@,
    )
}

/// Converts the inline markup of one line to HTML.
pub fn inline_html(text: &str) -> (r: String)
    ensures
        r@ == inline_html_spec(text@),
{
    let e = html_escape(text);
    let b = inline_replace(e.as_str(), InlineSpan::Bold, "<strong>$1</strong>");
    inline_replace(b.as_str(), InlineSpan::Code, "<code>$1</code>")
}

/// The HTML of one line outside a code block.
pub open spec fn line_html(line: Seq<char>) -> Seq<char> {
    if has_prefix(line, "# "@) {
        "<h1>"@ + escape_xml_spec(line.skip(2)) + "</h1>\n"@
    } else if has_prefix(line, "## "@) {
        "<h2>"@ + escape_xml_spec(line.skip(3)) + "</h2>\n"@
    } else if has_prefix(line, "### "@) {
        "<h3>"@ + escape_xml_spec(line.skip(4)) + "</h3>\n"@
    } else if has_prefix(trim_start(line), "- "@) || has_prefix(trim_start(line), "* "@) {
        "<li>"@ + inline_html_spec(trim_start(line).skip(2)) + "</li>\n"@
    } else {
        "<p>"@ + inline_html_spec(line) + "</p>\n"@
    }
}

/// The HTML of a sequence of lines and whether a code block is open
/// after them: a line starting with three backticks opens or closes a
/// code block; inside one, lines are escaped verbatim.
pub open spec fn markdown_html(lines: Seq<Seq<char>>) -> (Seq<char>, bool)
    decreases lines.len(),
{
    if lines.len() == 0 {
        (Seq::empty(), false)
    } else {
        let (html, in_code) = markdown_html(lines.drop_last());
        let line = lines.last();
        if has_prefix(line, "```"@) {
            if in_code {
                (html + "</code></pre>\n"@, false)
            } else {
                (html + "<pre><code>"@, true)
            }
        } else if in_code {
            (html + escape_xml_spec(line) + "\n"@, true)
        } else {
            (html + line_html(line), false)
        }
    }
}

fn heading(out: &mut String, open: &str, text: &str, close: &str)
    ensures
        final(out)@ == old(out)@ + (open@ + escape_xml_spec(text@) + close@),
{
    push_str(out, open);
    let e = html_escape(text);
    push_str(out, e.as_str());
    push_str(out, close);
}

fn line_to_html(out: &mut String, line: &str)
    ensures
        final(out)@ == old(out)@ + line_html(line@),
{
    proof {
        reveal_strlit("# ");
        reveal_strlit("## ");
        reveal_strlit("### ");
        reveal_strlit("- ");
        reveal_strlit("* ");
    }
    let cs = to_chars(line);
    assert(cs@.skip(0) =~= cs@);
    if starts_with_at(cs.as_slice(), 0, "# ") {
        let rest = from_chars(sub_chars(cs.as_slice(), 2, cs.len()).as_slice());
        assert(cs@.subrange(2, cs@.len() as int) =~= cs@.skip(2));
        heading(out, "<h1>", rest.as_str(), "</h1>\n");
        return;
    }
    if starts_with_at(cs.as_slice(), 0, "## ") {
        let rest = from_chars(sub_chars(cs.as_slice(), 3, cs.len()).as_slice());
        assert(cs@.subrange(3, cs@.len() as int) =~= cs@.skip(3));
        heading(out, "<h2>", rest.as_str(), "</h2>\n");
        return;
    }
    if starts_with_at(cs.as_slice(), 0, "### ") {
        let rest = from_chars(sub_chars(cs.as_slice(), 4, cs.len()).as_slice());
        assert(cs@.subrange(4, cs@.len() as int) =~= cs@.skip(4));
        heading(out, "<h3>", rest.as_str(), "</h3>\n");
        return;
    }
    let a = trim_start_index(cs.as_slice());
    if starts_with_at(cs.as_slice(), a, "- ") || starts_with_at(cs.as_slice(), a, "* ") {
        let n = cs.len();
        assert(cs@.skip(a as int).len() >= 2);
        let content = from_chars(sub_chars(cs.as_slice(), a + 2, n).as_slice());
        assert(cs@.subrange(a + 2, cs@.len() as int) =~= trim_start(cs@).skip(2));
        push_str(out, "<li>");
        let h = inline_html(content.as_str());
        push_str(out, h.as_str());
        push_str(out, "</li>\n");
        return;
    }
    push_str(out, "<p>");
    let h = inline_html(line);
    push_str(out, h.as_str());
    push_str(out, "</p>\n");
}

/// Converts Markdown text to simple HTML, line by line.
pub fn markdown_to_simple_html(md: &str) -> (r: String)
    ensures
        r@ == markdown_html(spec_lines(md@)).0,
{
    let lines = split_lines(md);
    let ghost ls = crate::text::strs_view(lines@);
    let mut html = String::new();
    let mut in_code = false;
    let mut i: usize = 0;
    while i < lines.len()
        invariant
            i <= lines@.len(),
            ls == crate::text::strs_view(lines@),
            ls == spec_lines(md@),
            (html@, in_code) == markdown_html(ls.take(i as int)),
        decreases lines.len() - i,
    {
        proof {
            reveal_strlit("```");
        }
        let line = lines[i].as_str();
        assert(ls.take(i + 1).drop_last() =~= ls.take(i as int));
        assert(ls.take(i + 1).last() == line@);
        let cs = to_chars(line);
        if starts_with_at(cs.as_slice(), 0, "```") {
            assert(cs@.skip(0) =~= cs@);
            if in_code {
                push_str(&mut html, "</code></pre>\n");
            } else {
                push_str(&mut html, "<pre><code>");
            }
            in_code = !in_code;
        } else {
            assert(cs@.skip(0) =~= cs@);
            if in_code {
                let e = html_escape(line);
                push_str(&mut html, e.as_str());
                push_str(&mut html, "\n");
            } else {
                line_to_html(&mut html, line);
            }
        }
        i = i + 1;
    }
    assert(ls.take(ls.len() as int) =~= ls);
    html
}

} // verus!
