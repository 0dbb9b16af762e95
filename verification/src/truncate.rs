//! Cutting tool output down to a size that is safe to hand to a model.

use vstd::prelude::*;
use crate::text::{byte_len, char_len_utf8, dec, from_chars, push_char, push_dec, push_str, spec_lines, split_lines, strs_view, to_chars, utf8_len};

verus! {

/// At most this many lines are kept.
pub const MAX_LINES: usize = 2000;

/// At most this many bytes are kept (1 MiB).
pub const MAX_BYTES: usize = 1024 * 1024;

/// A possibly shortened tool output.
#[derive(Debug, Clone)]
pub struct TruncatedOutput {
    pub output: String,
    pub truncated: bool,
    pub original_lines: usize,
    pub original_bytes: usize,
}

/// The lines, each followed by `'\n'`.
pub open spec fn joined(ls: Seq<Seq<char>>) -> Seq<char>
    decreases ls.len(),
{
    if ls.len() == 0 {
        Seq::empty()
    } else {
        joined(ls.drop_last()) + ls.last().push('\n')
    }
}

/// The first `n` lines, or all of them when there are fewer.
pub open spec fn first_n(ls: Seq<Seq<char>>, n: nat) -> Seq<Seq<char>> {
    if ls.len() <= n {
        ls
    } else {
        ls.take(n as int)
    }
}

/// The last `n` lines, or all of them when there are fewer.
pub open spec fn last_n(ls: Seq<Seq<char>>, n: nat) -> Seq<Seq<char>> {
    if ls.len() <= n {
        ls
    } else {
        ls.skip(ls.len() - n)
    }
}

/// The notice placed between the kept head and tail.
pub open spec fn truncation_notice(lines: nat, bytes: nat) -> Seq<char> {
    "\n<output truncated: "@ + dec(lines) + " lines, "@ + dec(bytes)
        + " bytes \u{2014} showing first 1000 and last 1000 lines>\n\n"@
}

/// The first and last thousand lines of `text` around the notice.
pub open spec fn head_and_tail(text: Seq<char>) -> Seq<char> {
    let ls = spec_lines(text);
    joined(first_n(ls, 1000)) + truncation_notice(ls.len(), utf8_len(text)) + joined(last_n(ls, 1000))
}

/// The note appended after a cut at the byte limit.
pub open spec fn byte_limit_note() -> Seq<char> {
    "\n<output truncated at byte limit>\n"@
}

/// The text is too long, so it is cut.
pub open spec fn needs_truncation(text: Seq<char>) -> bool {
    utf8_len(text) > MAX_BYTES || spec_lines(text).len() > MAX_LINES
}

/// `k` characters of `s` take at most `n` bytes, and one more would not:
/// the longest prefix of `s` that fits in `n` bytes.
pub open spec fn longest_fit(s: Seq<char>, k: int, n: nat) -> bool {
    &&& 0 <= k <= s.len()
    &&& utf8_len(s.take(k)) <= n
    &&& (k == s.len() || utf8_len(s.take(k + 1)) > n)
}

/// What `truncate_output` returns for `text`: the text itself when it is
/// small enough; else its first and last thousand lines around a notice,
/// and when that is still over the byte limit, its longest prefix that
/// fits in the limit followed by a closing note.
pub open spec fn truncated_text(text: Seq<char>) -> Seq<char> {
    if !needs_truncation(text) {
        text
    } else {
        let ht = head_and_tail(text);
        if utf8_len(ht) > MAX_BYTES {
            let k = choose|k: int| longest_fit(ht, k, MAX_BYTES as nat);
            ht.take(k) + byte_limit_note()
        } else {
            ht
        }
    }
}

proof fn lemma_utf8_prefix_grows(s: Seq<char>, i: int, j: int)
    requires
        0 <= i <= j <= s.len(),
    ensures
        utf8_len(s.take(i)) + (j - i) <= utf8_len(s.take(j)),
    decreases j - i,
{
    if i < j {
        lemma_utf8_prefix_grows(s, i, j - 1);
        assert(s.take(j).drop_last() =~= s.take(j - 1));
    }
}

fn push_joined(out: &mut String, ls: &Vec<String>, from: usize, to: usize)
    requires
        from <= to <= ls.len(),
    ensures
        final(out)@ == old(out)@ + joined(strs_view(ls@).subrange(from as int, to as int)),
{
    let mut i = from;
    while i < to
        invariant
            from <= i <= to <= ls.len(),
            out@ == old(out)@ + joined(strs_view(ls@).subrange(from as int, i as int)),
        decreases to - i,
    {
        let ghost before = out@;
        push_str(out, ls[i].as_str());
        push_char(out, '\n');
        let ghost v = strs_view(ls@);
        assert(v.subrange(from as int, i + 1).drop_last() =~= v.subrange(from as int, i as int));
        assert(v.subrange(from as int, i + 1).last() == ls@[i as int]@);
        assert(out@ =~= before + ls@[i as int]@.push('\n'));
        i = i + 1;
    }
}

proof fn lemma_longest_fit_unique(s: Seq<char>, j: int, k: int, n: nat)
    requires
        longest_fit(s, j, n),
        longest_fit(s, k, n),
    ensures
        j == k,
{
    if j < k {
        lemma_utf8_prefix_grows(s, j + 1, k);
    } else if k < j {
        lemma_utf8_prefix_grows(s, k + 1, j);
    }
}

fn cut_at_byte_limit(text: &str) -> (r: String)
    ensures
        r@ == text@.take(choose|k: int| longest_fit(text@, k, MAX_BYTES as nat)) + byte_limit_note(),
{
    let ghost ht = text@;
    let mut chars = to_chars(text);
    let n = chars.len();
    let mut acc: usize = 0;
    let mut k: usize = 0;
    assert(ht.take(0) =~= Seq::<char>::empty());
    while k < n && acc + char_len_utf8(chars[k]) <= MAX_BYTES
        invariant
            n == chars@.len(),
            chars@ == ht,
            k <= n,
            acc == utf8_len(ht.take(k as int)),
            acc <= MAX_BYTES,
        decreases n - k,
    {
        assert(ht.take(k + 1).drop_last() =~= ht.take(k as int));
        acc = acc + char_len_utf8(chars[k]);
        k = k + 1;
    }
    proof {
        if k < n {
            assert(ht.take(k + 1).drop_last() =~= ht.take(k as int));
        }
        assert(longest_fit(ht, k as int, MAX_BYTES as nat));
        let c = choose|c: int| longest_fit(ht, c, MAX_BYTES as nat);
        lemma_longest_fit_unique(ht, c, k as int, MAX_BYTES as nat);
    }
    chars.truncate(k);
    let mut cut = from_chars(chars.as_slice());
    push_str(&mut cut, "\n<output truncated at byte limit>\n");
    assert(ht.take(k as int) =~= chars@);
    cut
}

fn head_and_tail_string(output: &str, lines: &Vec<String>, original_lines: usize, original_bytes: usize) -> (r: String)
    requires
        strs_view(lines@) == spec_lines(output@),
        original_lines == lines.len(),
        original_bytes == utf8_len(output@),
    ensures
        r@ == head_and_tail(output@),
{
    let ghost ls = strs_view(lines@);
    let half: usize = MAX_LINES / 2;
    let head_end = if lines.len() <= half { lines.len() } else { half };
    let tail_start = if lines.len() <= half { 0 } else { lines.len() - half };
    let mut result = String::new();
    push_joined(&mut result, lines, 0, head_end);
    push_str(&mut result, "\n<output truncated: ");
    push_dec(&mut result, original_lines as u64);
    push_str(&mut result, " lines, ");
    push_dec(&mut result, original_bytes as u64);
    push_str(&mut result, " bytes \u{2014} showing first 1000 and last 1000 lines>\n\n");
    push_joined(&mut result, lines, tail_start, lines.len());
    proof {
        assert(ls.subrange(0, head_end as int) =~= first_n(ls, 1000));
        assert(ls.subrange(tail_start as int, ls.len() as int) =~= last_n(ls, 1000));
        assert(result@ =~= head_and_tail(output@));
    }
    result
}

/// Keeps outputs of at most 2000 lines and 1 MiB whole; otherwise keeps the
/// first and the last 1000 lines around a notice, and cuts the result to
/// its longest prefix within 1 MiB (with a closing note) when it is still
/// longer.
pub fn truncate_output(output: &str) -> (r: TruncatedOutput)
    ensures
        r.output@ == truncated_text(output@),
        r.truncated == needs_truncation(output@),
        r.original_lines == spec_lines(output@).len(),
        r.original_bytes == utf8_len(output@),
{
    let original_bytes = byte_len(output);
    let lines = split_lines(output);
    let original_lines = lines.len();
    if original_bytes <= MAX_BYTES && original_lines <= MAX_LINES {
        let mut out = String::new();
        push_str(&mut out, output);
        assert(out@ =~= output@);
        return TruncatedOutput { output: out, truncated: false, original_lines, original_bytes };
    }
    let result = head_and_tail_string(output, &lines, original_lines, original_bytes);
    let ht_bytes = byte_len(result.as_str());
    if ht_bytes > MAX_BYTES {
        let cut = cut_at_byte_limit(result.as_str());
        return TruncatedOutput { output: cut, truncated: true, original_lines, original_bytes };
    }
    TruncatedOutput { output: result, truncated: true, original_lines, original_bytes }
}

} // verus!
