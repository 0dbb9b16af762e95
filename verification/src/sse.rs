//! Incremental parsers for server-sent-event streams of model providers.

use vstd::prelude::*;
use vstd::utf8::{decode_utf8, valid_utf8};
use crate::text::{find_char_index, first_at_char, from_chars, has_prefix, lemma_first_at_char_unique, spec_lines, split_lines, starts_with_at, strs_view, sub_chars, to_chars, trim, trim_chars, trim_end_char};

verus! {

/// What `String::from_utf8_lossy` makes of `bytes`.
pub uninterp spec fn utf8_lossy(bytes: Seq<u8>) -> Seq<char>;

/// Decodes bytes as UTF-8 (`String::from_utf8_lossy`): each invalid sequence
/// becomes U+FFFD; on valid UTF-8 the result is exactly the decoded text.
#[verifier::external_body]
pub(crate) fn decode_utf8_lossy(bytes: &[u8]) -> (s: String)
    ensures
        s@ == utf8_lossy(bytes@),
        valid_utf8(bytes@) ==> s@ == decode_utf8(bytes@),
{
    String::from_utf8_lossy(bytes).into_owned()
}

proof fn lemma_trim_end_char_take(s: Seq<char>, c: char, j: int)
    requires
        0 <= j <= s.len(),
        forall|k: int| j <= k < s.len() ==> #[trigger] s[k] == c,
        j == 0 || s[j - 1] != c,
    ensures
        trim_end_char(s, c) == s.take(j),
    decreases s.len() - j,
{
    if j < s.len() {
        assert(s.drop_last().take(j) =~= s.take(j));
        lemma_trim_end_char_take(s.drop_last(), c, j);
    } else {
        assert(s.take(j) =~= s);
        if j > 0 {
            assert(s.last() == s[j - 1]);
        }
    }
}

/// The first `'\n'`-terminated line of `buf`, without its trailing `'\r'`s,
/// and what follows that line.
fn take_line(buf: &[char], i: usize) -> (r: (Vec<char>, Vec<char>))
    requires
        first_at_char(buf@, '\n', i as int),
    ensures
        r.0@ == trim_end_char(buf@.take(i as int), '\r'),
        r.1@ == buf@.skip(i + 1),
{
    let mut end = i;
    while end > 0 && buf[end - 1] == '\r'
        invariant
            end <= i < buf@.len(),
            forall|k: int| end <= k < i ==> #[trigger] buf@[k] == '\r',
        decreases end,
    {
        end = end - 1;
    }
    proof {
        let t = buf@.take(i as int);
        assert forall|k: int| end <= k < t.len() implies #[trigger] t[k] == '\r' by {
            assert(t[k] == buf@[k]);
        }
        if end > 0 {
            assert(t[end - 1] == buf@[end - 1]);
        }
        lemma_trim_end_char_take(t, '\r', end as int);
        assert(t.take(end as int) =~= buf@.subrange(0, end as int));
    }
    let n = buf.len();
    let line = sub_chars(buf, 0, end);
    let rest = sub_chars(buf, i + 1, n);
    assert(rest@ =~= buf@.skip(i + 1));
    (line, rest)
}

// ---------------------------------------------------------------------------
// OpenAI-style streams: one `data:` line per event
// ---------------------------------------------------------------------------

/// An event of an OpenAI-style stream.
#[derive(Debug, Clone)]
pub enum SseEvent {
    /// The payload of a `data:` line.
    Data(String),
    /// The message of an `error:` line.
    Error(String),
}

/// An event as a flag (`true` for an error) and its text.
pub open spec fn event_model(e: Option<SseEvent>) -> Option<(bool, Seq<char>)> {
    match e {
        Some(SseEvent::Data(d)) => Some((false, d@)),
        Some(SseEvent::Error(m)) => Some((true, m@)),
        None => None,
    }
}

/// The event that one line yields: the trimmed payload of a `data: ` or
/// `data:` line when it is not empty, the trimmed message of an `error: `
/// line, and nothing for any other line.
pub open spec fn openai_line_event(line: Seq<char>) -> Option<(bool, Seq<char>)> {
    if line.len() == 0 {
        None
    } else if has_prefix(line, "data: "@) {
        let c = trim(line.skip("data: "@.len() as int));
        if c.len() > 0 {
            Some((false, c))
        } else {
            None
        }
    } else if has_prefix(line, "data:"@) {
        let c = trim(line.skip("data:"@.len() as int));
        if c.len() > 0 {
            Some((false, c))
        } else {
            None
        }
    } else if has_prefix(line, "error: "@) {
        Some((true, trim(line.skip("error: "@.len() as int))))
    } else {
        None
    }
}

/// The next event of an OpenAI-style stream and the buffer left after it:
/// complete lines are consumed until one yields an event; without a
/// further complete line the buffer stays as it is.
pub open spec fn openai_next(buf: Seq<char>) -> (Option<(bool, Seq<char>)>, Seq<char>)
    decreases buf.len(),
{
    if exists|i: int| first_at_char(buf, '\n', i) {
        let i = choose|i: int| first_at_char(buf, '\n', i);
        let line = trim_end_char(buf.take(i), '\r');
        let rest = buf.skip(i + 1);
        match openai_line_event(line) {
            Some(e) => (Some(e), rest),
            None => openai_next(rest),
        }
    } else {
        (None, buf)
    }
}

/// An incremental parser of OpenAI-style server-sent events.
pub struct OpenAiSseParser {
    buffer: Vec<char>,
}

impl View for OpenAiSseParser {
    type V = Seq<char>;

    /// The text received and not consumed yet.
    closed spec fn view(&self) -> Seq<char> {
        self.buffer@
    }
}

fn openai_classify(line: &[char]) -> (r: Option<SseEvent>)
    ensures
        event_model(r) == openai_line_event(line@),
{
    proof {
        reveal_strlit("data: ");
        reveal_strlit("data:");
        reveal_strlit("error: ");
    }
    if line.len() == 0 {
        return None;
    }
    if starts_with_at(line, 0, "data: ") {
        assert(line@.skip(0) =~= line@);
        let c = trim_chars(line, 6, line.len());
        assert(line@.subrange(6, line@.len() as int) =~= line@.skip(6));
        if c.len() > 0 {
            return Some(SseEvent::Data(from_chars(c.as_slice())));
        }
        return None;
    }
    assert(line@.skip(0) =~= line@);
    if starts_with_at(line, 0, "data:") {
        let c = trim_chars(line, 5, line.len());
        assert(line@.subrange(5, line@.len() as int) =~= line@.skip(5));
        if c.len() > 0 {
            return Some(SseEvent::Data(from_chars(c.as_slice())));
        }
        return None;
    }
    if starts_with_at(line, 0, "error: ") {
        let c = trim_chars(line, 7, line.len());
        assert(line@.subrange(7, line@.len() as int) =~= line@.skip(7));
        return Some(SseEvent::Error(from_chars(c.as_slice())));
    }
    None
}

impl OpenAiSseParser {
    /// A parser with nothing received.
    pub fn new() -> (p: Self)
        ensures
            p@ == Seq::<char>::empty(),
    {
        OpenAiSseParser { buffer: Vec::new() }
    }

    /// Appends received bytes, decoded as UTF-8 with invalid sequences replaced.
    pub fn feed(&mut self, bytes: &[u8])
        ensures
            final(self)@ == old(self)@ + utf8_lossy(bytes@),
    {
        let s = decode_utf8_lossy(bytes);
        let cs = to_chars(s.as_str());
        let mut i: usize = 0;
        while i < cs.len()
            invariant
                i <= cs@.len(),
                self.buffer@ == old(self).buffer@ + cs@.take(i as int),
            decreases cs.len() - i,
        {
            self.buffer.push(cs[i]);
            assert(cs@.take(i + 1) =~= cs@.take(i as int).push(cs@[i as int]));
            i = i + 1;
        }
        assert(cs@.take(cs@.len() as int) =~= cs@);
    }

    /// The next complete event, consuming the lines up to it.
    pub fn next_event(&mut self) -> (r: Option<SseEvent>)
        ensures
            event_model(r) == openai_next(old(self)@).0,
            final(self)@ == openai_next(old(self)@).1,
    {
        loop
            invariant
                openai_next(old(self)@) == openai_next(self.buffer@),
            decreases self.buffer@.len(),
        {
            match find_char_index(self.buffer.as_slice(), '\n') {
                None => {
                    proof {
                        assert forall|i: int| !first_at_char(self.buffer@, '\n', i) by {
                            if first_at_char(self.buffer@, '\n', i) {
                                assert(self.buffer@[i] == '\n');
                            }
                        }
                    }
                    return None;
                },
                Some(i) => {
                    proof {
                        let j = choose|j: int| first_at_char(self.buffer@, '\n', j);
                        lemma_first_at_char_unique(self.buffer@, '\n', i as int, j);
                    }
                    let (line, rest) = take_line(self.buffer.as_slice(), i);
                    let ev = openai_classify(line.as_slice());
                    self.buffer = rest;
                    if ev.is_some() {
                        return ev;
                    }
                },
            }
        }
    }
}

// ---------------------------------------------------------------------------
// Anthropic-style streams: `event:` / `data:` blocks ended by a blank line
// ---------------------------------------------------------------------------

/// `i` is the position of the first `"\n\n"` in `s`.
pub open spec fn first_blank_at(s: Seq<char>, i: int) -> bool {
    &&& 0 <= i && i + 1 < s.len()
    &&& s[i] == '\n' && s[i + 1] == '\n'
    &&& forall|k: int| 0 <= k < i ==> !(#[trigger] s[k] == '\n' && s[k + 1] == '\n')
}

/// The event type and data of one block: each `event: ` line sets the type
/// and each `data: ` or `data:` line the data (trimmed; the last one wins);
/// the type is `message` when no line sets it.
pub open spec fn block_fields(lines: Seq<Seq<char>>) -> (Seq<char>, Seq<char>)
    decreases lines.len(),
{
    if lines.len() == 0 {
        ("message"@, Seq::empty())
    } else {
        let prev = block_fields(lines.drop_last());
        let l = lines.last();
        if has_prefix(l, "event: "@) {
            (trim(l.skip("event: "@.len() as int)), prev.1)
        } else if has_prefix(l, "data: "@) {
            (prev.0, trim(l.skip("data: "@.len() as int)))
        } else if has_prefix(l, "data:"@) {
            (prev.0, trim(l.skip("data:"@.len() as int)))
        } else {
            prev
        }
    }
}

/// The next `(event type, data)` pair of a block stream and the buffer left
/// after it: complete blocks are consumed until one has non-empty data.
pub open spec fn block_next(buf: Seq<char>) -> (Option<(Seq<char>, Seq<char>)>, Seq<char>)
    decreases buf.len(),
{
    if exists|i: int| first_blank_at(buf, i) {
        let i = choose|i: int| first_blank_at(buf, i);
        let f = block_fields(spec_lines(buf.take(i)));
        let rest = buf.skip(i + 2);
        if f.1.len() > 0 {
            (Some(f), rest)
        } else {
            block_next(rest)
        }
    } else {
        (None, buf)
    }
}

/// An incremental parser of `event:` / `data:` server-sent-event blocks.
pub struct SseLineParser {
    buffer: Vec<char>,
}

impl View for SseLineParser {
    type V = Seq<char>;

    /// The text received and not consumed yet.
    closed spec fn view(&self) -> Seq<char> {
        self.buffer@
    }
}

fn find_blank(s: &[char]) -> (r: Option<usize>)
    ensures
        match r {
            Some(i) => first_blank_at(s@, i as int),
            None => forall|i: int| !first_blank_at(s@, i),
        },
{
    let n = s.len();
    if n < 2 {
        return None;
    }
    let mut i: usize = 0;
    while i + 1 < n
        invariant
            n == s@.len(),
            n >= 2,
            i + 1 <= n,
            forall|k: int| 0 <= k < i ==> !(#[trigger] s@[k] == '\n' && s@[k + 1] == '\n'),
        decreases n - i,
    {
        if s[i] == '\n' && s[i + 1] == '\n' {
            return Some(i);
        }
        i = i + 1;
    }
    None
}

fn block_classify(text: &[char]) -> (r: (String, String))
    ensures
        (r.0@, r.1@) == block_fields(spec_lines(text@)),
{
    proof {
        reveal_strlit("message");
    }
    let s = from_chars(text);
    let lines = split_lines(s.as_str());
    let ghost ls = strs_view(lines@);
    let mut event_type: Vec<char> = to_chars("message");
    let mut data: Vec<char> = Vec::new();
    let mut i: usize = 0;
    while i < lines.len()
        invariant
            i <= lines@.len(),
            ls == strs_view(lines@),
            (event_type@, data@) == block_fields(ls.take(i as int)),
        decreases lines.len() - i,
    {
        proof {
            reveal_strlit("event: ");
            reveal_strlit("data: ");
            reveal_strlit("data:");
        }
        let l = to_chars(lines[i].as_str());
        assert(ls.take(i + 1).drop_last() =~= ls.take(i as int));
        assert(ls.take(i + 1).last() == l@);
        assert(l@.skip(0) =~= l@);
        if starts_with_at(l.as_slice(), 0, "event: ") {
            event_type = trim_chars(l.as_slice(), 7, l.len());
            assert(l@.subrange(7, l@.len() as int) =~= l@.skip(7));
        } else if starts_with_at(l.as_slice(), 0, "data: ") {
            data = trim_chars(l.as_slice(), 6, l.len());
            assert(l@.subrange(6, l@.len() as int) =~= l@.skip(6));
        } else if starts_with_at(l.as_slice(), 0, "data:") {
            data = trim_chars(l.as_slice(), 5, l.len());
            assert(l@.subrange(5, l@.len() as int) =~= l@.skip(5));
        }
        i = i + 1;
    }
    assert(ls.take(ls.len() as int) =~= ls);
    (from_chars(event_type.as_slice()), from_chars(data.as_slice()))
}

impl SseLineParser {
    /// A parser with nothing received.
    pub fn new() -> (p: Self)
        ensures
            p@ == Seq::<char>::empty(),
    {
        SseLineParser { buffer: Vec::new() }
    }

    /// Appends received bytes, decoded as UTF-8 with invalid sequences replaced.
    pub fn feed(&mut self, bytes: &[u8])
        ensures
            final(self)@ == old(self)@ + utf8_lossy(bytes@),
    {
        let s = decode_utf8_lossy(bytes);
        let cs = to_chars(s.as_str());
        let mut i: usize = 0;
        while i < cs.len()
            invariant
                i <= cs@.len(),
                self.buffer@ == old(self).buffer@ + cs@.take(i as int),
            decreases cs.len() - i,
        {
            self.buffer.push(cs[i]);
            assert(cs@.take(i + 1) =~= cs@.take(i as int).push(cs@[i as int]));
            i = i + 1;
        }
        assert(cs@.take(cs@.len() as int) =~= cs@);
    }

    /// The next complete block with non-empty data, as `(event type, data)`.
    pub fn next_event(&mut self) -> (r: Option<(String, String)>)
        ensures
            match r {
                Some((t, d)) => block_next(old(self)@).0 == Some((t@, d@)),
                None => block_next(old(self)@).0 is None,
            },
            final(self)@ == block_next(old(self)@).1,
    {
        loop
            invariant
                block_next(old(self)@) == block_next(self.buffer@),
            decreases self.buffer@.len(),
        {
            match find_blank(self.buffer.as_slice()) {
                None => {
                    return None;
                },
                Some(i) => {
                    proof {
                        let j = choose|j: int| first_blank_at(self.buffer@, j);
                        if j < i {
                            assert(!(self.buffer@[j] == '\n' && self.buffer@[j + 1] == '\n'));
                        } else if i < j {
                            assert(!(self.buffer@[i as int] == '\n' && self.buffer@[i + 1] == '\n'));
                        }
                        assert(j == i);
                    }
                    let n = self.buffer.len();
                    let text = sub_chars(self.buffer.as_slice(), 0, i);
                    let rest = sub_chars(self.buffer.as_slice(), i + 2, n);
                    assert(text@ =~= self.buffer@.take(i as int));
                    assert(rest@ =~= self.buffer@.skip(i + 2));
                    let (t, d) = block_classify(text.as_slice());
                    self.buffer = rest;
                    if !d.as_str().is_empty() {
                        return Some((t, d));
                    }
                },
            }
        }
    }
}


/// More text after a buffer whose next event is complete changes neither
/// that event nor what precedes the new text in the rest.
pub proof fn lemma_openai_next_extend(b: Seq<char>, c: Seq<char>)
    requires
        openai_next(b).0 is Some,
    ensures
        openai_next(b + c).0 == openai_next(b).0,
        openai_next(b + c).1 == openai_next(b).1 + c,
    decreases b.len(),
{
    let bc = b + c;
    assert(exists|i: int| first_at_char(b, '\n', i));
    let i = choose|i: int| first_at_char(b, '\n', i);
    assert(first_at_char(bc, '\n', i)) by {
        assert(bc.take(i) =~= b.take(i));
    }
    let j = choose|j: int| first_at_char(bc, '\n', j);
    lemma_first_at_char_unique(bc, '\n', i, j);
    assert(bc.take(i) =~= b.take(i));
    assert(bc.skip(i + 1) =~= b.skip(i + 1) + c);
    let line = trim_end_char(b.take(i), '\r');
    match openai_line_event(line) {
        Some(e) => {},
        None => {
            lemma_openai_next_extend(b.skip(i + 1), c);
        },
    }
}

// ---------------------------------------------------------------------------
// Line streams: each complete line, trimmed
// ---------------------------------------------------------------------------

/// The next complete line of a buffer, trimmed, and the buffer after it;
/// without a complete line the buffer stays as it is.
pub open spec fn line_next(buf: Seq<char>) -> (Option<Seq<char>>, Seq<char>) {
    if exists|i: int| first_at_char(buf, '\n', i) {
        let i = choose|i: int| first_at_char(buf, '\n', i);
        (Some(trim(buf.take(i))), buf.skip(i + 1))
    } else {
        (None, buf)
    }
}

/// Received text split into lines as they complete.
pub struct LineBuffer {
    buffer: Vec<char>,
}

impl View for LineBuffer {
    type V = Seq<char>;

    /// The text received and not consumed yet.
    closed spec fn view(&self) -> Seq<char> {
        self.buffer@
    }
}

impl LineBuffer {
    /// A buffer with nothing received.
    pub fn new() -> (b: Self)
        ensures
            b@ == Seq::<char>::empty(),
    {
        LineBuffer { buffer: Vec::new() }
    }

    /// Appends received bytes, decoded as UTF-8 with invalid sequences replaced.
    pub fn feed(&mut self, bytes: &[u8])
        ensures
            final(self)@ == old(self)@ + utf8_lossy(bytes@),
    {
        let s = decode_utf8_lossy(bytes);
        let cs = to_chars(s.as_str());
        let mut i: usize = 0;
        while i < cs.len()
            invariant
                i <= cs@.len(),
                self.buffer@ == old(self).buffer@ + cs@.take(i as int),
            decreases cs.len() - i,
        {
            self.buffer.push(cs[i]);
            assert(cs@.take(i + 1) =~= cs@.take(i as int).push(cs@[i as int]));
            i = i + 1;
        }
        assert(cs@.take(cs@.len() as int) =~= cs@);
    }

    /// The next complete line, trimmed, consuming it and its newline.
    pub fn next_line(&mut self) -> (r: Option<String>)
        ensures
            match r {
                Some(l) => line_next(old(self)@).0 == Some(l@),
                None => line_next(old(self)@).0 is None,
            },
            final(self)@ == line_next(old(self)@).1,
    {
        match find_char_index(self.buffer.as_slice(), '\n') {
            None => {
                proof {
                    assert forall|i: int| !first_at_char(self.buffer@, '\n', i) by {
                        if first_at_char(self.buffer@, '\n', i) {
                            assert(self.buffer@[i] == '\n');
                        }
                    }
                }
                None
            },
            Some(i) => {
                proof {
                    let j = choose|j: int| first_at_char(self.buffer@, '\n', j);
                    lemma_first_at_char_unique(self.buffer@, '\n', i as int, j);
                }
                assert(first_at_char(self.buffer@, '\n', i as int));
                assert(i < self.buffer.len());
                let line = trim_chars(self.buffer.as_slice(), 0, i);
                assert(self.buffer@.subrange(0, i as int) =~= self.buffer@.take(i as int));
                let rest = sub_chars(self.buffer.as_slice(), i + 1, self.buffer.len());
                assert(self.buffer@.subrange(i + 1, self.buffer@.len() as int) =~= self.buffer@.skip(i + 1));
                self.buffer = rest;
                Some(from_chars(line.as_slice()))
            },
        }
    }
}

} // verus!
