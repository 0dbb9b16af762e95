//! Token count estimates for context-window budgeting: about 1.5 characters
//! per token for CJK text and about 4 characters per token otherwise.

use vstd::prelude::*;
use crate::text::str_eq;

verus! {

/// An estimated token count.
#[derive(Debug, Clone, Copy)]
pub struct TokenEstimate {
    /// Estimated number of tokens.
    pub tokens: u32,
    /// Number of characters of the input.
    pub chars: usize,
}

/// `c` is a CJK ideograph, CJK symbol, full/half-width form, CJK radical,
/// Hangul syllable, Hiragana or Katakana character.
pub open spec fn spec_is_cjk(c: char) -> bool {
    let v = c as u32;
    ||| (0x4E00 <= v <= 0x9FFF)
    ||| (0x3400 <= v <= 0x4DBF)
    ||| (0x3000 <= v <= 0x303F)
    ||| (0xFF00 <= v <= 0xFFEF)
    ||| (0x2E80 <= v <= 0x2EFF)
    ||| (0xAC00 <= v <= 0xD7AF)
    ||| (0x3040 <= v <= 0x309F)
    ||| (0x30A0 <= v <= 0x30FF)
}

/// Whether `c` counts as CJK for the estimate.
pub fn is_cjk(c: char) -> (r: bool)
    ensures
        r == spec_is_cjk(c),
{
    let v = c as u32;
    (0x4E00 <= v && v <= 0x9FFF) || (0x3400 <= v && v <= 0x4DBF) || (0x3000 <= v && v <= 0x303F)
        || (0xFF00 <= v && v <= 0xFFEF) || (0x2E80 <= v && v <= 0x2EFF) || (0xAC00 <= v && v
        <= 0xD7AF) || (0x3040 <= v && v <= 0x309F) || (0x30A0 <= v && v <= 0x30FF)
}

/// The number of CJK characters of `s`.
pub open spec fn cjk_count(s: Seq<char>) -> nat
    decreases s.len(),
{
    if s.len() == 0 {
        0
    } else {
        cjk_count(s.drop_last()) + if spec_is_cjk(s.last()) { 1nat } else { 0nat }
    }
}

/// `n / d` rounded up.
pub open spec fn ceil_div(n: nat, d: nat) -> nat {
    if n % d == 0 { n / d } else { n / d + 1 }
}

/// The estimate for `s`: CJK characters at 1.5 per token and the others at 4
/// per token, each share rounded up.
pub open spec fn spec_estimate(s: Seq<char>) -> nat {
    ceil_div(cjk_count(s) * 2, 3) + ceil_div((s.len() - cjk_count(s)) as nat, 4)
}

pub proof fn lemma_cjk_count_le(s: Seq<char>)
    ensures
        cjk_count(s) <= s.len(),
    decreases s.len(),
{
    if s.len() > 0 {
        lemma_cjk_count_le(s.drop_last());
    }
}

/// An estimate bounds the counts it is made of.
proof fn lemma_estimate_bounds(s: Seq<char>)
    ensures
        cjk_count(s) <= s.len(),
        cjk_count(s) * 2 <= 3 * spec_estimate(s),
        (s.len() - cjk_count(s)) <= 4 * spec_estimate(s),
{
    lemma_cjk_count_le(s);
}

/// Estimates the number of tokens of `text`. The estimate must fit in a
/// `u32` (the sum of the two shares overflows otherwise).
pub fn estimate(text: &str) -> (r: TokenEstimate)
    requires
        text@.len() <= usize::MAX,
        spec_estimate(text@) <= u32::MAX,
    ensures
        r.chars == text@.len(),
        r.tokens == spec_estimate(text@),
{
    proof {
        lemma_estimate_bounds(text@);
    }
    let mut chars: u64 = 0;
    let mut cjk: u64 = 0;
    for c in it: text.chars()
        invariant
            text@.len() <= 0x10_0000_0000,
            chars == it.index(),
            cjk == cjk_count(it.seq().take(it.index() as int)),
            it.seq() == text@,
            it.index() <= it.seq().len(),
    {
        proof {
            assert(it.seq().take(it.index() + 1).drop_last() =~= it.seq().take(it.index() as int));
            lemma_cjk_count_le(it.seq().take(it.index() as int));
            assert(it.index() < it.seq().len());
        }
        if is_cjk(c) {
            cjk = cjk + 1;
        }
        chars = chars + 1;
    }
    proof {
        assert(text@.take(text@.len() as int) =~= text@);
    }
    if chars == 0 {
        return TokenEstimate { tokens: 0, chars: 0 };
    }
    let non_cjk = chars - cjk;
    let c2 = cjk * 2;
    let cjk_tokens: u64 = if c2 % 3 == 0 { c2 / 3 } else { c2 / 3 + 1 };
    let other_tokens: u64 = if non_cjk % 4 == 0 { non_cjk / 4 } else { non_cjk / 4 + 1 };
    TokenEstimate { tokens: (cjk_tokens + other_tokens) as u32, chars: chars as usize }
}

/// One content block of a message: its `type` and, when present, its `text`.
#[derive(Debug, Clone)]
pub struct ContentBlock {
    pub block_type: String,
    pub text: Option<String>,
}

/// A message as the estimate sees it: its content blocks, when the content
/// is an array.
#[derive(Debug, Clone)]
pub struct MessageContent {
    pub blocks: Option<Vec<ContentBlock>>,
}

/// The estimate for the text blocks of one message.
pub open spec fn blocks_estimate(bs: Seq<ContentBlock>) -> nat
    decreases bs.len(),
{
    if bs.len() == 0 {
        0
    } else {
        let b = bs.last();
        blocks_estimate(bs.drop_last()) + if b.block_type@ == "text"@ && b.text is Some {
            spec_estimate(b.text->0@)
        } else {
            0
        }
    }
}

/// The estimate for a message history: the text blocks of every message,
/// plus 4 tokens per message.
pub open spec fn messages_estimate(ms: Seq<MessageContent>) -> nat
    decreases ms.len(),
{
    if ms.len() == 0 {
        0
    } else {
        let m = ms.last();
        messages_estimate(ms.drop_last()) + match m.blocks {
            Some(bs) => blocks_estimate(bs@),
            None => 0,
        } + 4
    }
}

/// The text of the block, if any, has at most `usize::MAX` characters (as
/// any string in memory has).
pub open spec fn text_fits(b: ContentBlock) -> bool {
    match b.text {
        Some(t) => t@.len() <= usize::MAX,
        None => true,
    }
}

/// Every text block of the message has at most `usize::MAX` characters.
pub open spec fn texts_fit(m: MessageContent) -> bool {
    match m.blocks {
        Some(bs) => forall|j: int| 0 <= j < bs@.len() ==> text_fits(#[trigger] bs@[j]),
        None => true,
    }
}

/// Estimates the tokens of a message history.
pub fn estimate_messages(messages: &[MessageContent]) -> (r: u32)
    requires
        messages_estimate(messages@) <= u32::MAX,
        forall|i: int| 0 <= i < messages@.len() ==> texts_fit(#[trigger] messages@[i]),
    ensures
        r == messages_estimate(messages@),
{
    let mut total: u64 = 0;
    let mut i: usize = 0;
    while i < messages.len()
        invariant
            i <= messages@.len(),
            total == messages_estimate(messages@.take(i as int)),
            messages_estimate(messages@) <= u32::MAX,
            forall|i: int| 0 <= i < messages@.len() ==> texts_fit(#[trigger] messages@[i]),
        decreases messages.len() - i,
    {
        let ghost mi = messages@[i as int];
        assert(texts_fit(mi));
        assert(messages@.take(i + 1).drop_last() =~= messages@.take(i as int));
        proof {
            lemma_messages_prefix_le(messages@, i + 1);
        }
        let mut msg_total: u64 = 0;
        match &messages[i].blocks {
            Some(bs) => {
                let mut j: usize = 0;
                while j < bs.len()
                    invariant
                        j <= bs@.len(),
                        mi.blocks == Some(*bs),
                        msg_total == blocks_estimate(bs@.take(j as int)),
                        forall|j: int| 0 <= j < bs@.len() ==> text_fits(#[trigger] bs@[j]),
                        total + blocks_estimate(bs@) <= u32::MAX,
                    decreases bs.len() - j,
                {
                    assert(bs@.take(j + 1).drop_last() =~= bs@.take(j as int));
                    assert(bs@.take(j + 1).last() == bs@[j as int]);
                    proof {
                        lemma_blocks_prefix_le(bs@, j + 1);
                    }
                    let b = &bs[j];
                    if str_eq(b.block_type.as_str(), "text") {
                        match &b.text {
                            Some(t) => {
                                let e = estimate(t.as_str());
                                msg_total = msg_total + e.tokens as u64;
                            },
                            None => {},
                        }
                    }
                    j = j + 1;
                }
                assert(bs@.take(bs@.len() as int) =~= bs@);
            },
            None => {},
        }
        proof {
            lemma_messages_prefix_le(messages@, i + 1);
        }
        total = total + msg_total + 4;
        i = i + 1;
    }
    assert(messages@.take(messages@.len() as int) =~= messages@);
    total as u32
}

proof fn lemma_blocks_prefix_le(bs: Seq<ContentBlock>, k: int)
    requires
        0 <= k <= bs.len(),
    ensures
        blocks_estimate(bs.take(k)) <= blocks_estimate(bs),
    decreases bs.len() - k,
{
    if k < bs.len() {
        lemma_blocks_prefix_le(bs, k + 1);
        assert(bs.take(k + 1).drop_last() =~= bs.take(k));
    } else {
        assert(bs.take(k) =~= bs);
    }
}

proof fn lemma_messages_prefix_le(ms: Seq<MessageContent>, k: int)
    requires
        0 <= k <= ms.len(),
    ensures
        messages_estimate(ms.take(k)) <= messages_estimate(ms),
    decreases ms.len() - k,
{
    if k < ms.len() {
        lemma_messages_prefix_le(ms, k + 1);
        assert(ms.take(k + 1).drop_last() =~= ms.take(k));
    } else {
        assert(ms.take(k) =~= ms);
    }
}

} // verus!
