//! The listing that the read tool returns: numbered lines of a window of
//! the file, cut down when too long.

use vstd::prelude::*;
use crate::text::{dec, join_lines, join_nl, pad_left, push_dec, push_padded_dec, push_str, spec_lines, split_lines, strs_view};
use crate::truncate::{needs_truncation, truncate_output, truncated_text};

verus! {

/// The first line shown (from 0) for a 1-based offset (0 means the start).
pub open spec fn read_start(offset: nat) -> nat {
    if offset > 0 { (offset - 1) as nat } else { 0 }
}

/// The end (exclusive) of the lines shown.
pub open spec fn read_end(start: nat, limit: Option<nat>, n: nat) -> nat {
    match limit {
        Some(l) => if start + l < n { start + l } else { n },
        None => n,
    }
}

/// Line `line` numbered `number`: the number right-aligned in six columns,
/// a tab, the line.
pub open spec fn numbered_line(number: nat, line: Seq<char>) -> Seq<char> {
    pad_left(dec(number), 6) + seq!['\t'] + line
}

/// The numbered lines `start..end`, joined with newlines.
pub open spec fn read_listing(lines: Seq<Seq<char>>, start: nat, end: nat) -> Seq<char> {
    join_nl(Seq::new((end - start) as nat, |i: int| numbered_line((start + i + 1) as nat, lines[start + i])))
}

/// The opt-limit as a number.
pub open spec fn opt_nat(o: Option<usize>) -> Option<nat> {
    match o {
        Some(l) => Some(l as nat),
        None => None,
    }
}

/// What the read tool shows of `content`: the listing of the window, cut
/// down when too long, with a note of the window shown when it was cut.
pub open spec fn read_output(content: Seq<char>, offset: nat, limit: Option<nat>) -> Seq<char> {
    let lines = spec_lines(content);
    let start = read_start(offset);
    let end = read_end(start, limit, lines.len());
    let listing = read_listing(lines, start, end);
    if needs_truncation(listing) {
        truncated_text(listing) + "\n[showing "@ + dec(start + 1) + "-"@ + dec(end) + " of "@ + dec(lines.len())
            + " lines]"@
    } else {
        truncated_text(listing)
    }
}

fn listing_of(lines: &Vec<String>, start: usize, end: usize) -> (r: String)
    requires
        start <= end <= lines@.len(),
    ensures
        r@ == read_listing(strs_view(lines@), start as nat, end as nat),
{
    let ghost ls = strs_view(lines@);
    let n = lines.len();
    let ghost want = Seq::new((end - start) as nat, |i: int| numbered_line((start + i + 1) as nat, ls[start + i]));
    let mut parts: Vec<String> = Vec::new();
    let mut i = start;
    while i < end
        invariant
            start <= i <= end <= n,
            n == lines@.len(),
            ls == strs_view(lines@),
            n <= usize::MAX,
            want == Seq::new((end - start) as nat, |i: int| numbered_line((start + i + 1) as nat, ls[start + i])),
            strs_view(parts@) == want.take(i - start),
        decreases end - i,
    {
        let mut l = String::new();
        push_padded_dec(&mut l, (i + 1) as u64, 6);
        crate::text::push_char(&mut l, '\t');
        push_str(&mut l, lines[i].as_str());
        let ghost before = parts@;
        parts.push(l);
        proof {
            assert(l@ =~= numbered_line((i + 1) as nat, ls[i as int]));
            assert(want[i - start] == numbered_line((start + (i - start) + 1) as nat, ls[start + (i - start)]));
            assert(strs_view(parts@) =~= strs_view(before).push(l@));
            assert(want.take(i + 1 - start) =~= want.take(i - start).push(want[i - start]));
        }
        i = i + 1;
    }
    assert(want.take(end - start) =~= want);
    let listing = join_lines(parts.as_slice());
    listing
}

/// The read tool's output for `content` from the 1-based line `offset`
/// (0: from the start), at most `limit` lines.
pub fn render_read(content: &str, offset: usize, limit: Option<usize>) -> (r: String)
    requires
        read_start(offset as nat) <= spec_lines(content@).len(),
        limit matches Some(l) ==> read_start(offset as nat) + l <= usize::MAX,
    ensures
        r@ == read_output(content@, offset as nat, opt_nat(limit)),
{
    let lines = split_lines(content);
    let ghost ls = strs_view(lines@);
    let n = lines.len();
    let start = if offset > 0 { offset - 1 } else { 0 };
    let end = match limit {
        Some(l) => if start + l < n { start + l } else { n },
        None => n,
    };
    let listing = listing_of(&lines, start, end);
    assert(ls == strs_view(lines@));
    let t = truncate_output(listing.as_str());
    let mut out = t.output;
    if t.truncated {
        push_str(&mut out, "\n[showing ");
        push_dec(&mut out, (start + 1) as u64);
        push_str(&mut out, "-");
        push_dec(&mut out, end as u64);
        push_str(&mut out, " of ");
        push_dec(&mut out, n as u64);
        push_str(&mut out, " lines]");
    }
    out
}

} // verus!
