//! Line diffs computed through a longest common subsequence of lines.

use vstd::prelude::*;
use crate::text::{dec, pad_left, push_char, push_padded_dec, push_spaces, push_str, slices_view, spaces, spec_lines, split_lines, str_eq, strs_view, dec_len};

verus! {

// ---------------------------------------------------------------------------
// Longest common subsequence: specification
// ---------------------------------------------------------------------------

/// `idx` places the elements of `s`, in order, at strictly increasing
/// positions of `a`.
pub open spec fn embeds<A>(s: Seq<A>, a: Seq<A>, idx: Seq<int>) -> bool {
    &&& idx.len() == s.len()
    &&& forall|k: int| 0 <= k < idx.len() ==> 0 <= #[trigger] idx[k] < a.len() && a[idx[k]] == s[k]
    &&& forall|k1: int, k2: int| 0 <= k1 < k2 < idx.len() ==> #[trigger] idx[k1] < #[trigger] idx[k2]
}

/// `s` is a subsequence of `a`.
#[verifier::opaque]
pub open spec fn is_subsequence<A>(s: Seq<A>, a: Seq<A>) -> bool {
    exists|idx: Seq<int>| embeds(s, a, idx)
}

/// `s` is a subsequence of both `a` and `b`.
pub open spec fn is_common_subsequence<A>(s: Seq<A>, a: Seq<A>, b: Seq<A>) -> bool {
    is_subsequence(s, a) && is_subsequence(s, b)
}

/// The length of a longest common subsequence of `a` and `b`.
pub open spec fn lcs_len<A>(a: Seq<A>, b: Seq<A>) -> nat
    decreases a.len() + b.len(),
{
    if a.len() == 0 || b.len() == 0 {
        0
    } else if a.last() == b.last() {
        lcs_len(a.drop_last(), b.drop_last()) + 1
    } else {
        let x = lcs_len(a.drop_last(), b);
        let y = lcs_len(a, b.drop_last());
        if x >= y {
            x
        } else {
            y
        }
    }
}

/// The common subsequence that the backward walk through the LCS table
/// selects: a shared last line is kept; otherwise the walk drops the last line
/// of `a` when that keeps a strictly longer LCS, and the last line of `b` else.
pub open spec fn lcs_trace<A>(a: Seq<A>, b: Seq<A>) -> Seq<A>
    decreases a.len() + b.len(),
{
    if a.len() == 0 || b.len() == 0 {
        Seq::empty()
    } else if a.last() == b.last() {
        lcs_trace(a.drop_last(), b.drop_last()).push(a.last())
    } else if lcs_len(a.drop_last(), b) > lcs_len(a, b.drop_last()) {
        lcs_trace(a.drop_last(), b)
    } else {
        lcs_trace(a, b.drop_last())
    }
}

proof fn lemma_lcs_len_bounds<A>(a: Seq<A>, b: Seq<A>)
    ensures
        lcs_len(a, b) <= a.len(),
        lcs_len(a, b) <= b.len(),
    decreases a.len() + b.len(),
{
    if a.len() == 0 || b.len() == 0 {
    } else if a.last() == b.last() {
        lemma_lcs_len_bounds(a.drop_last(), b.drop_last());
    } else {
        lemma_lcs_len_bounds(a.drop_last(), b);
        lemma_lcs_len_bounds(a, b.drop_last());
    }
}

proof fn lemma_embeds_prefix<A>(s: Seq<A>, a: Seq<A>, idx: Seq<int>, n: int)
    requires
        embeds(s, a, idx),
        0 <= n <= a.len(),
        forall|k: int| 0 <= k < idx.len() ==> #[trigger] idx[k] < n,
    ensures
        embeds(s, a.take(n), idx),
{
}

/// The traced subsequence is a common subsequence, and the embeddings it has
/// into `a` and `b` use positions below their lengths.
proof fn lemma_lcs_trace_embeds<A>(a: Seq<A>, b: Seq<A>) -> (r: (Seq<int>, Seq<int>))
    ensures
        embeds(lcs_trace(a, b), a, r.0),
        embeds(lcs_trace(a, b), b, r.1),
        lcs_trace(a, b).len() == lcs_len(a, b),
    decreases a.len() + b.len(),
{
    if a.len() == 0 || b.len() == 0 {
        (Seq::empty(), Seq::empty())
    } else if a.last() == b.last() {
        let (ia, ib) = lemma_lcs_trace_embeds(a.drop_last(), b.drop_last());
        let t = lcs_trace(a.drop_last(), b.drop_last());
        let ia2 = ia.push(a.len() - 1);
        let ib2 = ib.push(b.len() - 1);
        assert(lcs_trace(a, b) == t.push(a.last()));
        assert forall|k: int| 0 <= k < ia2.len() implies 0 <= #[trigger] ia2[k] < a.len()
            && a[ia2[k]] == t.push(a.last())[k] by {
            if k < ia.len() {
                assert(ia2[k] == ia[k]);
            }
        }
        assert forall|k1: int, k2: int| 0 <= k1 < k2 < ia2.len() implies #[trigger] ia2[k1]
            < #[trigger] ia2[k2] by {
            if k2 < ia.len() {
                assert(ia2[k1] == ia[k1] && ia2[k2] == ia[k2]);
            } else {
                assert(ia2[k1] == ia[k1]);
            }
        }
        assert forall|k: int| 0 <= k < ib2.len() implies 0 <= #[trigger] ib2[k] < b.len()
            && b[ib2[k]] == t.push(a.last())[k] by {
            if k < ib.len() {
                assert(ib2[k] == ib[k]);
            }
        }
        assert forall|k1: int, k2: int| 0 <= k1 < k2 < ib2.len() implies #[trigger] ib2[k1]
            < #[trigger] ib2[k2] by {
            if k2 < ib.len() {
                assert(ib2[k1] == ib[k1] && ib2[k2] == ib[k2]);
            } else {
                assert(ib2[k1] == ib[k1]);
            }
        }
        (ia2, ib2)
    } else if lcs_len(a.drop_last(), b) > lcs_len(a, b.drop_last()) {
        let (ia, ib) = lemma_lcs_trace_embeds(a.drop_last(), b);
        (ia, ib)
    } else {
        let (ia, ib) = lemma_lcs_trace_embeds(a, b.drop_last());
        (ia, ib)
    }
}

/// Every common subsequence of `a` and `b` is at most `lcs_len(a, b)` long.
proof fn lemma_lcs_len_is_max<A>(s: Seq<A>, a: Seq<A>, b: Seq<A>, ia: Seq<int>, ib: Seq<int>)
    requires
        embeds(s, a, ia),
        embeds(s, b, ib),
    ensures
        s.len() <= lcs_len(a, b),
    decreases a.len() + b.len(),
{
    if s.len() == 0 {
    } else {
        let n = s.len() - 1;
        assert(0 <= ia[n] < a.len());
        assert(0 <= ib[n] < b.len());
        if a.last() == b.last() {
            let s2 = s.drop_last();
            let ia2 = ia.drop_last();
            let ib2 = ib.drop_last();
            assert forall|k: int| 0 <= k < ia2.len() implies #[trigger] ia2[k] < a.len() - 1 by {
                assert(ia[k] < ia[n]);
            }
            assert forall|k: int| 0 <= k < ib2.len() implies #[trigger] ib2[k] < b.len() - 1 by {
                assert(ib[k] < ib[n]);
            }
            assert(embeds(s2, a.drop_last(), ia2));
            assert(embeds(s2, b.drop_last(), ib2));
            lemma_lcs_len_is_max(s2, a.drop_last(), b.drop_last(), ia2, ib2);
        } else if ia[n] < a.len() - 1 {
            assert forall|k: int| 0 <= k < ia.len() implies #[trigger] ia[k] < a.len() - 1 by {
                if k < n {
                    assert(ia[k] < ia[n]);
                }
            }
            assert(embeds(s, a.drop_last(), ia));
            lemma_lcs_len_is_max(s, a.drop_last(), b, ia, ib);
        } else {
            assert(ib[n] < b.len() - 1);
            assert forall|k: int| 0 <= k < ib.len() implies #[trigger] ib[k] < b.len() - 1 by {
                if k < n {
                    assert(ib[k] < ib[n]);
                }
            }
            assert(embeds(s, b.drop_last(), ib));
            lemma_lcs_len_is_max(s, a, b.drop_last(), ia, ib);
        }
    }
}

/// The traced subsequence of `a` and `b` is a longest common subsequence:
/// it is common to both, and no common subsequence is longer.
pub proof fn lemma_lcs_trace_is_longest<A>(a: Seq<A>, b: Seq<A>, s: Seq<A>)
    ensures
        is_common_subsequence(lcs_trace(a, b), a, b),
        lcs_trace(a, b).len() == lcs_len(a, b),
        is_common_subsequence(s, a, b) ==> s.len() <= lcs_trace(a, b).len(),
{
    reveal(is_subsequence);
    let (ia, ib) = lemma_lcs_trace_embeds(a, b);
    if is_common_subsequence(s, a, b) {
        let ja = choose|idx: Seq<int>| embeds(s, a, idx);
        let jb = choose|idx: Seq<int>| embeds(s, b, idx);
        lemma_lcs_len_is_max(s, a, b, ja, jb);
    }
}

// ---------------------------------------------------------------------------
// Longest common subsequence: computation
// ---------------------------------------------------------------------------

/// A longest common subsequence of two line lists (table of prefix LCS
/// lengths, then a walk back from the end of both lists).
pub fn compute_lcs<'a>(old: &[&'a str], new: &[&'a str]) -> (r: Vec<&'a str>)
    ensures
        slices_view(r@) == lcs_trace(slices_view(old@), slices_view(new@)),
{
    let ghost a = slices_view(old@);
    let ghost b = slices_view(new@);
    let m = old.len();
    let n = new.len();
    let mut dp: Vec<Vec<usize>> = Vec::new();
    let mut row0: Vec<usize> = Vec::new();
    let mut j: usize = 0;
    while j < n
        invariant
            j <= n,
            row0.len() == j,
            forall|c: int| 0 <= c < j ==> row0@[c] == 0,
        decreases n - j,
    {
        row0.push(0);
        j = j + 1;
    }
    row0.push(0);
    proof {
        assert forall|c: int| 0 <= c <= n implies #[trigger] row0@[c] == lcs_len(a.take(0), b.take(c)) by {
        }
    }
    dp.push(row0);
    let mut i: usize = 0;
    while i < m
        invariant
            i <= m,
            m == old.len(),
            n == new.len(),
            a == slices_view(old@),
            b == slices_view(new@),
            dp.len() == i + 1,
            forall|r: int| 0 <= r <= i ==> #[trigger] dp@[r].len() == n + 1,
            forall|r: int, c: int| 0 <= r <= i && 0 <= c <= n ==> #[trigger] dp@[r]@[c] == lcs_len(a.take(r), b.take(c)),
        decreases m - i,
    {
        let mut row: Vec<usize> = Vec::new();
        row.push(0);
        let mut j: usize = 0;
        while j < n
            invariant
                i < m,
                j <= n,
                m == old.len(),
                n == new.len(),
                a == slices_view(old@),
                b == slices_view(new@),
                dp.len() == i + 1,
                forall|r: int| 0 <= r <= i ==> #[trigger] dp@[r].len() == n + 1,
                forall|r: int, c: int| 0 <= r <= i && 0 <= c <= n ==> #[trigger] dp@[r]@[c] == lcs_len(a.take(r), b.take(c)),
                row.len() == j + 1,
                forall|c: int| 0 <= c <= j ==> #[trigger] row@[c] == lcs_len(a.take(i + 1), b.take(c)),
            decreases n - j,
        {
            let ghost ai = a.take(i + 1);
            let ghost bj = b.take(j + 1);
            assert(ai.drop_last() == a.take(i as int));
            assert(bj.drop_last() == b.take(j as int));
            assert(ai.last() == old@[i as int]@);
            assert(bj.last() == new@[j as int]@);
            assert(dp@[i as int].len() == n + 1);
            let v: usize;
            if str_eq(old[i], new[j]) {
                proof {
                    lemma_lcs_len_bounds(a.take(i as int), b.take(j as int));
                }
                v = dp[i][j] + 1;
            } else {
                let up = dp[i][j + 1];
                let left = row[j];
                v = if up >= left { up } else { left };
            }
            row.push(v);
            j = j + 1;
        }
        dp.push(row);
        i = i + 1;
    }
    assert(a.take(m as int) == a);
    assert(b.take(n as int) == b);

    // Walk back from the end of both lists.
    let mut i: usize = m;
    let mut j: usize = n;
    let mut rev: Vec<&'a str> = Vec::new();
    let ghost mut suffix: Seq<Seq<char>> = Seq::empty();
    while i > 0 && j > 0
        invariant
            i <= m,
            j <= n,
            m == old.len(),
            n == new.len(),
            a == slices_view(old@),
            b == slices_view(new@),
            dp.len() == m + 1,
            forall|r: int| 0 <= r <= m ==> #[trigger] dp@[r].len() == n + 1,
            forall|r: int, c: int| 0 <= r <= m && 0 <= c <= n ==> #[trigger] dp@[r]@[c] == lcs_len(a.take(r), b.take(c)),
            lcs_trace(a, b) == lcs_trace(a.take(i as int), b.take(j as int)) + suffix,
            rev.len() == suffix.len(),
            forall|k: int| 0 <= k < rev.len() ==> #[trigger] rev@[k]@ == suffix[suffix.len() - 1 - k],
        decreases i + j,
    {
        let ghost ai = a.take(i as int);
        let ghost bj = b.take(j as int);
        assert(ai.drop_last() == a.take(i - 1));
        assert(bj.drop_last() == b.take(j - 1));
        assert(ai.last() == old@[i - 1]@);
        assert(bj.last() == new@[j - 1]@);
        assert(dp@[i - 1].len() == n + 1);
        assert(dp@[i as int].len() == n + 1);
        if str_eq(old[i - 1], new[j - 1]) {
            let ghost x = old@[i - 1]@;
            proof {
                assert(lcs_trace(ai, bj) == lcs_trace(a.take(i - 1), b.take(j - 1)).push(x));
                assert(lcs_trace(a.take(i - 1), b.take(j - 1)).push(x) + suffix
                    == lcs_trace(a.take(i - 1), b.take(j - 1)) + (seq![x] + suffix));
            }
            let ghost old_rev = rev@;
            rev.push(old[i - 1]);
            proof {
                let s2 = seq![x] + suffix;
                assert forall|k: int| 0 <= k < rev.len() implies #[trigger] rev@[k]@ == s2[s2.len() - 1 - k] by {
                    if k < old_rev.len() {
                        assert(rev@[k] == old_rev[k]);
                    }
                }
                suffix = s2;
            }
            i = i - 1;
            j = j - 1;
        } else if dp[i - 1][j] > dp[i][j - 1] {
            i = i - 1;
        } else {
            j = j - 1;
        }
    }
    let mut r: Vec<&'a str> = Vec::new();
    let mut k: usize = 0;
    while k < rev.len()
        invariant
            k <= rev.len(),
            rev.len() == suffix.len(),
            forall|t: int| 0 <= t < rev.len() ==> #[trigger] rev@[t]@ == suffix[suffix.len() - 1 - t],
            slices_view(r@) == suffix.take(k as int),
        decreases rev.len() - k,
    {
        let x = rev[rev.len() - 1 - k];
        assert(suffix.take(k + 1) == suffix.take(k as int).push(suffix[k as int]));
        r.push(x);
        assert(slices_view(r@) == suffix.take(k + 1));
        k = k + 1;
    }
    assert(suffix.take(suffix.len() as int) == suffix);
    assert(lcs_trace(a.take(i as int), b.take(j as int)) == Seq::<Seq<char>>::empty());
    assert(lcs_trace(a, b) == suffix);
    r
}

// ---------------------------------------------------------------------------
// Line diffs
// ---------------------------------------------------------------------------

/// The kind of a diff line.
#[derive(Debug, Clone, Copy, PartialEq, Eq, Structural)]
pub enum DiffLineType {
    Context,
    Added,
    Removed,
}

/// One line of a diff, with its 1-based numbers in the old and new text.
#[derive(Debug, Clone)]
pub struct DiffLine {
    pub line_type: DiffLineType,
    pub old_line: Option<usize>,
    pub new_line: Option<usize>,
    pub content: String,
}

/// A whole diff.
#[derive(Debug, Clone)]
pub struct DiffResult {
    pub lines: Vec<DiffLine>,
    pub added_count: usize,
    pub removed_count: usize,
}

/// The lines of the old text that a diff keeps or removes, in order.
pub open spec fn old_side(ls: Seq<DiffLine>) -> Seq<Seq<char>>
    decreases ls.len(),
{
    if ls.len() == 0 {
        Seq::empty()
    } else if ls.last().line_type == DiffLineType::Added {
        old_side(ls.drop_last())
    } else {
        old_side(ls.drop_last()).push(ls.last().content@)
    }
}

/// The lines of the new text that a diff keeps or adds, in order.
pub open spec fn new_side(ls: Seq<DiffLine>) -> Seq<Seq<char>>
    decreases ls.len(),
{
    if ls.len() == 0 {
        Seq::empty()
    } else if ls.last().line_type == DiffLineType::Removed {
        new_side(ls.drop_last())
    } else {
        new_side(ls.drop_last()).push(ls.last().content@)
    }
}

/// How many lines of a diff have kind `t`.
pub open spec fn count_kind(ls: Seq<DiffLine>, t: DiffLineType) -> nat
    decreases ls.len(),
{
    if ls.len() == 0 {
        0
    } else if ls.last().line_type == t {
        count_kind(ls.drop_last(), t) + 1
    } else {
        count_kind(ls.drop_last(), t)
    }
}

/// Every line carries its 1-based number in each text it belongs to, and no
/// number for a text it does not belong to.
#[verifier::opaque]
pub open spec fn numbered(ls: Seq<DiffLine>) -> bool {
    forall|k: int| 0 <= k < ls.len() ==> {
        &&& (#[trigger] ls[k]).old_line == if ls[k].line_type == DiffLineType::Added {
            None
        } else {
            Some((old_side(ls.take(k)).len() + 1) as usize)
        }
        &&& ls[k].new_line == if ls[k].line_type == DiffLineType::Removed {
            None
        } else {
            Some((new_side(ls.take(k)).len() + 1) as usize)
        }
    }
}

/// Within each change the removed lines come before the added ones: no
/// added line is directly followed by a removed line.
#[verifier::opaque]
pub open spec fn removed_first(ls: Seq<DiffLine>) -> bool {
    forall|k: int| 0 <= k < ls.len() - 1 ==> !((#[trigger] ls[k]).line_type == DiffLineType::Added
        && ls[k + 1].line_type == DiffLineType::Removed)
}

/// The kind and text of each line of a diff.
pub open spec fn diff_view(ls: Seq<DiffLine>) -> Seq<(DiffLineType, Seq<char>)> {
    ls.map_values(|x: DiffLine| (x.line_type, x.content@))
}

/// The diff that walks `a` and `b` along the common subsequence `t`: before
/// each line of `t`, the lines of `a` up to its next occurrence are removed,
/// then the lines of `b` up to its next occurrence are added, and the line
/// itself is kept; after `t`, what is left of `a` is removed and what is left
/// of `b` added.
pub open spec fn walk_diff(a: Seq<Seq<char>>, b: Seq<Seq<char>>, t: Seq<Seq<char>>) -> Seq<(DiffLineType, Seq<char>)>
    decreases a.len() + b.len(),
{
    if a.len() == 0 && b.len() == 0 {
        Seq::empty()
    } else if t.len() > 0 {
        if a.len() > 0 && a[0] != t[0] {
            seq![(DiffLineType::Removed, a[0])] + walk_diff(a.drop_first(), b, t)
        } else if b.len() > 0 && b[0] != t[0] {
            seq![(DiffLineType::Added, b[0])] + walk_diff(a, b.drop_first(), t)
        } else if a.len() > 0 && b.len() > 0 {
            seq![(DiffLineType::Context, a[0])] + walk_diff(a.drop_first(), b.drop_first(), t.drop_first())
        } else {
            Seq::empty()
        }
    } else if a.len() > 0 {
        seq![(DiffLineType::Removed, a[0])] + walk_diff(a.drop_first(), b, t)
    } else {
        seq![(DiffLineType::Added, b[0])] + walk_diff(a, b.drop_first(), t)
    }
}

proof fn lemma_diff_view_push(ls: Seq<DiffLine>, x: DiffLine, rest: Seq<(DiffLineType, Seq<char>)>)
    ensures
        diff_view(ls.push(x)) + rest == diff_view(ls) + (seq![(x.line_type, x.content@)] + rest),
{
    assert(diff_view(ls.push(x)) =~= diff_view(ls).push((x.line_type, x.content@)));
    assert(diff_view(ls.push(x)) + rest =~= diff_view(ls) + (seq![(x.line_type, x.content@)] + rest));
}

/// `ls` is the line diff from `old_lines` to `new_lines`: it keeps the
/// longest common subsequence of lines that the LCS table's backward walk
/// selects, walks both texts along it (each change as its removed lines,
/// then its added lines), and numbers every line.
pub open spec fn is_line_diff(ls: Seq<DiffLine>, old_lines: Seq<Seq<char>>, new_lines: Seq<Seq<char>>) -> bool {
    &&& old_side(ls) == old_lines
    &&& new_side(ls) == new_lines
    &&& count_kind(ls, DiffLineType::Context) == lcs_len(old_lines, new_lines)
    &&& removed_first(ls)
    &&& numbered(ls)
    &&& diff_view(ls) == walk_diff(old_lines, new_lines, lcs_trace(old_lines, new_lines))
}

proof fn lemma_push_removed_first(ls: Seq<DiffLine>, x: DiffLine)
    requires
        removed_first(ls),
        !(ls.len() > 0 && ls.last().line_type == DiffLineType::Added && x.line_type == DiffLineType::Removed),
    ensures
        removed_first(ls.push(x)),
{
    reveal(removed_first);
    let lp = ls.push(x);
    assert forall|k: int| 0 <= k < lp.len() - 1 implies !((#[trigger] lp[k]).line_type == DiffLineType::Added
        && lp[k + 1].line_type == DiffLineType::Removed) by {
        assert(lp[k] == ls[k]);
        if k + 1 < ls.len() {
            assert(lp[k + 1] == ls[k + 1]);
        } else {
            assert(lp[k + 1] == x);
            assert(ls.last() == ls[k]);
        }
    }
}

proof fn lemma_sides_len(ls: Seq<DiffLine>)
    ensures
        old_side(ls).len() == count_kind(ls, DiffLineType::Context) + count_kind(ls, DiffLineType::Removed),
        new_side(ls).len() == count_kind(ls, DiffLineType::Context) + count_kind(ls, DiffLineType::Added),
    decreases ls.len(),
{
    if ls.len() > 0 {
        lemma_sides_len(ls.drop_last());
    }
}

proof fn lemma_subseq_empty<A>(s: Seq<A>, a: Seq<A>)
    requires
        s.len() == 0,
    ensures
        is_subsequence(s, a),
{
    reveal(is_subsequence);
    assert(embeds(s, a, Seq::empty()));
}

proof fn lemma_subseq_nonempty<A>(s: Seq<A>, a: Seq<A>)
    requires
        is_subsequence(s, a),
        s.len() > 0,
    ensures
        a.len() > 0,
{
    reveal(is_subsequence);
    let idx = choose|idx: Seq<int>| embeds(s, a, idx);
    assert(0 <= idx[0] < a.len());
}

proof fn lemma_subseq_skip_mismatch<A>(s: Seq<A>, a: Seq<A>)
    requires
        is_subsequence(s, a),
        s.len() > 0,
        a.len() > 0,
        a[0] != s[0],
    ensures
        is_subsequence(s, a.drop_first()),
{
    reveal(is_subsequence);
    let idx = choose|idx: Seq<int>| embeds(s, a, idx);
    assert(idx[0] != 0);
    assert forall|k: int| 0 <= k < idx.len() implies #[trigger] idx[k] >= 1 by {
        if k > 0 {
            assert(idx[0] < idx[k]);
        }
    }
    let j = Seq::new(idx.len(), |k: int| idx[k] - 1);
    assert(embeds(s, a.drop_first(), j));
}

proof fn lemma_subseq_skip_match<A>(s: Seq<A>, a: Seq<A>)
    requires
        is_subsequence(s, a),
        s.len() > 0,
        a.len() > 0,
    ensures
        is_subsequence(s.drop_first(), a.drop_first()),
{
    reveal(is_subsequence);
    let idx = choose|idx: Seq<int>| embeds(s, a, idx);
    assert forall|k: int| 1 <= k < idx.len() implies #[trigger] idx[k] >= 1 by {
        assert(idx[0] < idx[k]);
    }
    let j = Seq::new((idx.len() - 1) as nat, |k: int| idx[k + 1] - 1);
    assert forall|k1: int, k2: int| 0 <= k1 < k2 < j.len() implies #[trigger] j[k1] < #[trigger] j[k2] by {
        assert(idx[k1 + 1] < idx[k2 + 1]);
    }
    assert forall|k: int| 0 <= k < j.len() implies 0 <= #[trigger] j[k] < a.drop_first().len()
        && a.drop_first()[j[k]] == s.drop_first()[k] by {
        assert(idx[k + 1] >= 1);
    }
    assert(embeds(s.drop_first(), a.drop_first(), j));
}

proof fn lemma_push_numbered(ls: Seq<DiffLine>, x: DiffLine)
    requires
        numbered(ls),
        x.old_line == if x.line_type == DiffLineType::Added {
            None
        } else {
            Some((old_side(ls).len() + 1) as usize)
        },
        x.new_line == if x.line_type == DiffLineType::Removed {
            None
        } else {
            Some((new_side(ls).len() + 1) as usize)
        },
    ensures
        numbered(ls.push(x)),
        old_side(ls.push(x)) == if x.line_type == DiffLineType::Added {
            old_side(ls)
        } else {
            old_side(ls).push(x.content@)
        },
        new_side(ls.push(x)) == if x.line_type == DiffLineType::Removed {
            new_side(ls)
        } else {
            new_side(ls).push(x.content@)
        },
        forall|t: DiffLineType| count_kind(ls.push(x), t) == count_kind(ls, t) + if x.line_type == t { 1nat } else { 0nat },
{
    reveal(numbered);
    let lp = ls.push(x);
    assert(lp.drop_last() =~= ls);
    assert(lp.take(ls.len() as int) =~= ls);
    assert forall|k: int| 0 <= k < lp.len() implies {
        &&& (#[trigger] lp[k]).old_line == if lp[k].line_type == DiffLineType::Added {
            None
        } else {
            Some((old_side(lp.take(k)).len() + 1) as usize)
        }
        &&& lp[k].new_line == if lp[k].line_type == DiffLineType::Removed {
            None
        } else {
            Some((new_side(lp.take(k)).len() + 1) as usize)
        }
    } by {
        if k < ls.len() {
            assert(lp.take(k) =~= ls.take(k));
            assert(lp[k] == ls[k]);
        }
    }
}

/// The line diff of two texts: every line of the old text is kept or
/// removed, every line of the new text is kept or added, and exactly the lines
/// of a longest common subsequence are kept.
#[verifier::rlimit(80)]
pub fn compute_diff(old_text: &str, new_text: &str) -> (r: DiffResult)
    ensures
        old_side(r.lines@) == spec_lines(old_text@),
        new_side(r.lines@) == spec_lines(new_text@),
        count_kind(r.lines@, DiffLineType::Context) == lcs_len(spec_lines(old_text@), spec_lines(new_text@)),
        removed_first(r.lines@),
        r.added_count == count_kind(r.lines@, DiffLineType::Added),
        r.removed_count == count_kind(r.lines@, DiffLineType::Removed),
        r.added_count == spec_lines(new_text@).len() - lcs_len(spec_lines(old_text@), spec_lines(new_text@)),
        r.removed_count == spec_lines(old_text@).len() - lcs_len(spec_lines(old_text@), spec_lines(new_text@)),
        numbered(r.lines@),
        is_line_diff(r.lines@, spec_lines(old_text@), spec_lines(new_text@)),
        diff_view(r.lines@) == walk_diff(
            spec_lines(old_text@),
            spec_lines(new_text@),
            lcs_trace(spec_lines(old_text@), spec_lines(new_text@)),
        ),
{
    let old_lines = split_lines(old_text);
    let new_lines = split_lines(new_text);
    let mut old_refs: Vec<&str> = Vec::new();
    let mut t: usize = 0;
    while t < old_lines.len()
        invariant
            t <= old_lines.len(),
            slices_view(old_refs@) == strs_view(old_lines@).take(t as int),
        decreases old_lines.len() - t,
    {
        let ghost before = old_refs@;
        old_refs.push(old_lines[t].as_str());
        assert(slices_view(old_refs@) =~= slices_view(before).push(old_lines@[t as int]@));
        assert(strs_view(old_lines@).take(t + 1) =~= strs_view(old_lines@).take(t as int).push(old_lines@[t as int]@));
        t = t + 1;
    }
    let mut new_refs: Vec<&str> = Vec::new();
    let mut t: usize = 0;
    while t < new_lines.len()
        invariant
            t <= new_lines.len(),
            slices_view(new_refs@) == strs_view(new_lines@).take(t as int),
        decreases new_lines.len() - t,
    {
        let ghost before = new_refs@;
        new_refs.push(new_lines[t].as_str());
        assert(slices_view(new_refs@) =~= slices_view(before).push(new_lines@[t as int]@));
        assert(strs_view(new_lines@).take(t + 1) =~= strs_view(new_lines@).take(t as int).push(new_lines@[t as int]@));
        t = t + 1;
    }
    let ghost a = strs_view(old_lines@);
    let ghost b = strs_view(new_lines@);
    assert(a.take(a.len() as int) == a);
    assert(b.take(b.len() as int) == b);
    let lcs = compute_lcs(old_refs.as_slice(), new_refs.as_slice());
    let ghost l = slices_view(lcs@);
    proof {
        reveal(numbered);
        reveal(removed_first);
        lemma_lcs_trace_is_longest(a, b, l);
        assert(a.skip(0) == a);
        assert(b.skip(0) == b);
        assert(l.skip(0) == l);
    }

    let mut lines: Vec<DiffLine> = Vec::new();
    assert(diff_view(lines@) + walk_diff(a, b, l) =~= walk_diff(a, b, l));
    let mut added: usize = 0;
    let mut removed: usize = 0;
    let mut oi: usize = 0;
    let mut ni: usize = 0;
    let mut li: usize = 0;
    while oi < old_lines.len() || ni < new_lines.len()
        invariant
            a == strs_view(old_lines@),
            b == strs_view(new_lines@),
            l == slices_view(lcs@),
            l.len() == lcs_len(a, b),
            oi <= a.len(),
            ni <= b.len(),
            li <= l.len(),
            is_subsequence(l.skip(li as int), a.skip(oi as int)),
            is_subsequence(l.skip(li as int), b.skip(ni as int)),
            old_side(lines@) == a.take(oi as int),
            new_side(lines@) == b.take(ni as int),
            count_kind(lines@, DiffLineType::Context) == li,
            added == count_kind(lines@, DiffLineType::Added),
            removed == count_kind(lines@, DiffLineType::Removed),
            numbered(lines@),
            removed_first(lines@),
            diff_view(lines@) + walk_diff(a.skip(oi as int), b.skip(ni as int), l.skip(li as int)) == walk_diff(a, b, l),
            (lines@.len() > 0 && lines@.last().line_type == DiffLineType::Added) ==> oi == a.len(),
        decreases a.len() - oi + b.len() - ni,
    {
        proof {
            lemma_sides_len(lines@);
        }
        let ghost oi0 = oi;
        let ghost ni0 = ni;
        if li < lcs.len() {
            let lcs_line = lcs[li];
            while oi < old_lines.len() && !str_eq(old_lines[oi].as_str(), lcs_line)
                invariant
                    a == strs_view(old_lines@),
                    b == strs_view(new_lines@),
                    l == slices_view(lcs@),
                    li < l.len(),
                    lcs_line@ == l[li as int],
                    oi <= a.len(),
                    ni <= b.len(),
                    oi0 <= oi,
                    ni0 <= ni,
                    is_subsequence(l.skip(li as int), a.skip(oi as int)),
                    old_side(lines@) == a.take(oi as int),
                    new_side(lines@) == b.take(ni as int),
                    count_kind(lines@, DiffLineType::Context) == li,
                    added == count_kind(lines@, DiffLineType::Added),
                    removed == count_kind(lines@, DiffLineType::Removed),
                    numbered(lines@),
                    removed_first(lines@),
                    diff_view(lines@) + walk_diff(a.skip(oi as int), b.skip(ni as int), l.skip(li as int)) == walk_diff(a, b, l),
            diff_view(lines@) + walk_diff(a.skip(oi as int), b.skip(ni as int), l.skip(li as int)) == walk_diff(a, b, l),
                    (lines@.len() > 0 && lines@.last().line_type == DiffLineType::Added) ==> oi == a.len(),
                decreases a.len() - oi,
            {
                proof {
                    lemma_sides_len(lines@);
                    assert(a.skip(oi as int)[0] == a[oi as int]);
                    assert(l.skip(li as int)[0] == l[li as int]);
                    lemma_subseq_skip_mismatch(l.skip(li as int), a.skip(oi as int));
                    assert(a.skip(oi as int).drop_first() == a.skip(oi + 1));
                }
                let x = DiffLine {
                    line_type: DiffLineType::Removed,
                    old_line: Some(oi + 1),
                    new_line: None,
                    content: old_lines[oi].clone(),
                };
                let ghost before = lines@;
                proof {
                    lemma_push_numbered(before, x);
                    lemma_push_removed_first(before, x);
                    lemma_diff_view_push(before, x, walk_diff(a.skip(oi + 1), b.skip(ni as int), l.skip(li as int)));
                    assert(walk_diff(a.skip(oi as int), b.skip(ni as int), l.skip(li as int)) == seq![(DiffLineType::Removed, a[oi as int])] + walk_diff(a.skip(oi + 1), b.skip(ni as int), l.skip(li as int)));
                }
                lines.push(x);
                proof {
                    assert(a.take(oi + 1) == a.take(oi as int).push(a[oi as int]));
                }
                removed = removed + 1;
                oi = oi + 1;
            }
            while ni < new_lines.len() && !str_eq(new_lines[ni].as_str(), lcs_line)
                invariant
                    a == strs_view(old_lines@),
                    b == strs_view(new_lines@),
                    l == slices_view(lcs@),
                    li < l.len(),
                    lcs_line@ == l[li as int],
                    oi <= a.len(),
                    ni <= b.len(),
                    oi0 <= oi,
                    ni0 <= ni,
                    is_subsequence(l.skip(li as int), a.skip(oi as int)),
                    is_subsequence(l.skip(li as int), b.skip(ni as int)),
                    oi < a.len() ==> a[oi as int] == l[li as int],
                    old_side(lines@) == a.take(oi as int),
                    new_side(lines@) == b.take(ni as int),
                    count_kind(lines@, DiffLineType::Context) == li,
                    added == count_kind(lines@, DiffLineType::Added),
                    removed == count_kind(lines@, DiffLineType::Removed),
                    numbered(lines@),
                    removed_first(lines@),
                    diff_view(lines@) + walk_diff(a.skip(oi as int), b.skip(ni as int), l.skip(li as int)) == walk_diff(a, b, l),
            diff_view(lines@) + walk_diff(a.skip(oi as int), b.skip(ni as int), l.skip(li as int)) == walk_diff(a, b, l),
                decreases b.len() - ni,
            {
                proof {
                    lemma_sides_len(lines@);
                    assert(b.skip(ni as int)[0] == b[ni as int]);
                    assert(l.skip(li as int)[0] == l[li as int]);
                    lemma_subseq_skip_mismatch(l.skip(li as int), b.skip(ni as int));
                    assert(b.skip(ni as int).drop_first() == b.skip(ni + 1));
                }
                let x = DiffLine {
                    line_type: DiffLineType::Added,
                    old_line: None,
                    new_line: Some(ni + 1),
                    content: new_lines[ni].clone(),
                };
                let ghost before = lines@;
                proof {
                    lemma_push_numbered(before, x);
                    lemma_push_removed_first(before, x);
                    lemma_diff_view_push(before, x, walk_diff(a.skip(oi as int), b.skip(ni + 1), l.skip(li as int)));
                    assert(walk_diff(a.skip(oi as int), b.skip(ni as int), l.skip(li as int)) == seq![(DiffLineType::Added, b[ni as int])] + walk_diff(a.skip(oi as int), b.skip(ni + 1), l.skip(li as int)));
                }
                lines.push(x);
                proof {
                    assert(b.take(ni + 1) == b.take(ni as int).push(b[ni as int]));
                }
                added = added + 1;
                ni = ni + 1;
            }
            proof {
                lemma_subseq_nonempty(l.skip(li as int), a.skip(oi as int));
                lemma_subseq_nonempty(l.skip(li as int), b.skip(ni as int));
            }
            if oi < old_lines.len() && ni < new_lines.len() {
                proof {
                    lemma_sides_len(lines@);
                    assert(a.skip(oi as int)[0] == a[oi as int]);
                    assert(b.skip(ni as int)[0] == b[ni as int]);
                    lemma_subseq_skip_match(l.skip(li as int), a.skip(oi as int));
                    lemma_subseq_skip_match(l.skip(li as int), b.skip(ni as int));
                    assert(a.skip(oi as int).drop_first() == a.skip(oi + 1));
                    assert(b.skip(ni as int).drop_first() == b.skip(ni + 1));
                    assert(l.skip(li as int).drop_first() == l.skip(li + 1));
                }
                let x = DiffLine {
                    line_type: DiffLineType::Context,
                    old_line: Some(oi + 1),
                    new_line: Some(ni + 1),
                    content: old_lines[oi].clone(),
                };
                let ghost before = lines@;
                proof {
                    lemma_push_numbered(before, x);
                    lemma_push_removed_first(before, x);
                    lemma_diff_view_push(before, x, walk_diff(a.skip(oi + 1), b.skip(ni + 1), l.skip(li + 1)));
                    assert(walk_diff(a.skip(oi as int), b.skip(ni as int), l.skip(li as int)) == seq![(DiffLineType::Context, a[oi as int])] + walk_diff(a.skip(oi + 1), b.skip(ni + 1), l.skip(li + 1)));
                }
                lines.push(x);
                proof {
                    assert(a.take(oi + 1) == a.take(oi as int).push(a[oi as int]));
                    assert(b.take(ni + 1) == b.take(ni as int).push(b[ni as int]));
                }
                oi = oi + 1;
                ni = ni + 1;
                li = li + 1;
            }
        } else {
            while oi < old_lines.len()
                invariant
                    a == strs_view(old_lines@),
                    b == strs_view(new_lines@),
                    oi <= a.len(),
                    ni <= b.len(),
                    oi0 <= oi,
                    ni0 <= ni,
                    old_side(lines@) == a.take(oi as int),
                    new_side(lines@) == b.take(ni as int),
                    count_kind(lines@, DiffLineType::Context) == li,
                    li == l.len(),
                    added == count_kind(lines@, DiffLineType::Added),
                    removed == count_kind(lines@, DiffLineType::Removed),
                    numbered(lines@),
                    removed_first(lines@),
                    diff_view(lines@) + walk_diff(a.skip(oi as int), b.skip(ni as int), l.skip(li as int)) == walk_diff(a, b, l),
            diff_view(lines@) + walk_diff(a.skip(oi as int), b.skip(ni as int), l.skip(li as int)) == walk_diff(a, b, l),
                    (lines@.len() > 0 && lines@.last().line_type == DiffLineType::Added) ==> oi == a.len(),
                decreases a.len() - oi,
            {
                proof {
                    lemma_sides_len(lines@);
                }
                let x = DiffLine {
                    line_type: DiffLineType::Removed,
                    old_line: Some(oi + 1),
                    new_line: None,
                    content: old_lines[oi].clone(),
                };
                let ghost before = lines@;
                proof {
                    lemma_push_numbered(before, x);
                    lemma_push_removed_first(before, x);
                    lemma_diff_view_push(before, x, walk_diff(a.skip(oi + 1), b.skip(ni as int), l.skip(li as int)));
                    assert(l.skip(li as int).len() == 0);
                    assert(a.skip(oi as int)[0] == a[oi as int]);
                    assert(a.skip(oi as int).drop_first() =~= a.skip(oi + 1));
                    assert(walk_diff(a.skip(oi as int), b.skip(ni as int), l.skip(li as int)) == seq![(DiffLineType::Removed, a[oi as int])] + walk_diff(a.skip(oi + 1), b.skip(ni as int), l.skip(li as int)));
                }
                lines.push(x);
                proof {
                    assert(a.take(oi + 1) == a.take(oi as int).push(a[oi as int]));
                }
                removed = removed + 1;
                oi = oi + 1;
            }
            while ni < new_lines.len()
                invariant
                    a == strs_view(old_lines@),
                    b == strs_view(new_lines@),
                    oi <= a.len(),
                    ni <= b.len(),
                    oi0 <= oi,
                    ni0 <= ni,
                    old_side(lines@) == a.take(oi as int),
                    new_side(lines@) == b.take(ni as int),
                    count_kind(lines@, DiffLineType::Context) == li,
                    li == l.len(),
                    added == count_kind(lines@, DiffLineType::Added),
                    removed == count_kind(lines@, DiffLineType::Removed),
                    numbered(lines@),
                    removed_first(lines@),
                    diff_view(lines@) + walk_diff(a.skip(oi as int), b.skip(ni as int), l.skip(li as int)) == walk_diff(a, b, l),
            diff_view(lines@) + walk_diff(a.skip(oi as int), b.skip(ni as int), l.skip(li as int)) == walk_diff(a, b, l),
                    oi == a.len(),
                decreases b.len() - ni,
            {
                proof {
                    lemma_sides_len(lines@);
                }
                let x = DiffLine {
                    line_type: DiffLineType::Added,
                    old_line: None,
                    new_line: Some(ni + 1),
                    content: new_lines[ni].clone(),
                };
                let ghost before = lines@;
                proof {
                    lemma_push_numbered(before, x);
                    lemma_push_removed_first(before, x);
                    lemma_diff_view_push(before, x, walk_diff(a.skip(oi as int), b.skip(ni + 1), l.skip(li as int)));
                    assert(l.skip(li as int).len() == 0);
                    assert(a.skip(oi as int).len() == 0);
                    assert(b.skip(ni as int)[0] == b[ni as int]);
                    assert(b.skip(ni as int).drop_first() =~= b.skip(ni + 1));
                    assert(walk_diff(a.skip(oi as int), b.skip(ni as int), l.skip(li as int)) == seq![(DiffLineType::Added, b[ni as int])] + walk_diff(a.skip(oi as int), b.skip(ni + 1), l.skip(li as int)));
                }
                lines.push(x);
                proof {
                    assert(b.take(ni + 1) == b.take(ni as int).push(b[ni as int]));
                }
                added = added + 1;
                ni = ni + 1;
            }
            proof {
                lemma_subseq_empty(l.skip(li as int), a.skip(oi as int));
                lemma_subseq_empty(l.skip(li as int), b.skip(ni as int));
            }
        }
    }
    proof {
        lemma_sides_len(lines@);
        assert(a.take(a.len() as int) == a);
        assert(b.take(b.len() as int) == b);
        if li < l.len() {
            assert(l.skip(li as int).len() > 0);
            lemma_subseq_nonempty(l.skip(li as int), a.skip(oi as int));
        }
    }
    DiffResult { lines, added_count: added, removed_count: removed }
}

// ---------------------------------------------------------------------------
// Unified rendering
// ---------------------------------------------------------------------------

/// A line number as a natural number (zero when absent).
pub open spec fn num(o: Option<usize>) -> nat {
    match o {
        Some(v) => v as nat,
        None => 0,
    }
}

/// The number shown first for a line: its old number, else its new one.
pub open spec fn line_no(l: DiffLine) -> Option<usize> {
    match l.old_line {
        Some(v) => Some(v),
        None => l.new_line,
    }
}

/// The largest line number shown in a diff.
pub open spec fn max_line_no(ls: Seq<DiffLine>) -> Option<usize>
    decreases ls.len(),
{
    if ls.len() == 0 {
        None
    } else {
        let m = max_line_no(ls.drop_last());
        match (m, line_no(ls.last())) {
            (None, x) => x,
            (Some(a), None) => Some(a),
            (Some(a), Some(b)) => Some(if a >= b { a } else { b }),
        }
    }
}

/// The width of the number columns: the digits of the largest line number.
pub open spec fn diff_width(ls: Seq<DiffLine>) -> nat {
    match max_line_no(ls) {
        Some(m) => dec(m as nat).len(),
        None => 1,
    }
}

/// One rendered diff line: marker, old number, new number, content.
pub open spec fn render_line(l: DiffLine, w: nat) -> Seq<char> {
    let (prefix, o, n) = match l.line_type {
        DiffLineType::Context => (' ', pad_left(dec(num(l.old_line)), w), pad_left(dec(num(l.new_line)), w)),
        DiffLineType::Added => ('+', spaces(w), pad_left(dec(num(l.new_line)), w)),
        DiffLineType::Removed => ('-', pad_left(dec(num(l.old_line)), w), spaces(w)),
    };
    (((seq![prefix] + o).push(' ') + n).push(' ') + l.content@).push('\n')
}

/// All rendered diff lines, in order.
pub open spec fn render_lines(ls: Seq<DiffLine>, w: nat) -> Seq<char>
    decreases ls.len(),
{
    if ls.len() == 0 {
        Seq::empty()
    } else {
        render_lines(ls.drop_last(), w) + render_line(ls.last(), w)
    }
}

/// The unified rendering of a diff of the file at `path`: empty when the
/// diff has no lines, else the two header lines and every diff line.
pub open spec fn unified(ls: Seq<DiffLine>, path: Seq<char>) -> Seq<char> {
    if ls.len() == 0 {
        Seq::empty()
    } else {
        "--- a/"@ + path + "\n+++ b/"@ + path + "\n"@ + render_lines(ls, diff_width(ls))
    }
}

fn push_rendered_line(out: &mut String, l: &DiffLine, w: usize)
    ensures
        final(out)@ == old(out)@ + render_line(*l, w as nat),
{
    let o = match l.old_line {
        Some(v) => v,
        None => 0,
    };
    let n = match l.new_line {
        Some(v) => v,
        None => 0,
    };
    assert(o as nat == num(l.old_line));
    assert(n as nat == num(l.new_line));
    let mut line = String::new();
    let prefix = match l.line_type {
        DiffLineType::Context => ' ',
        DiffLineType::Added => '+',
        DiffLineType::Removed => '-',
    };
    push_char(&mut line, prefix);
    assert(line@ =~= seq![prefix]);
    match l.line_type {
        DiffLineType::Added => push_spaces(&mut line, w),
        _ => push_padded_dec(&mut line, o as u64, w),
    }
    push_char(&mut line, ' ');
    match l.line_type {
        DiffLineType::Removed => push_spaces(&mut line, w),
        _ => push_padded_dec(&mut line, n as u64, w),
    }
    push_char(&mut line, ' ');
    push_str(&mut line, l.content.as_str());
    push_char(&mut line, '\n');
    assert(line@ == render_line(*l, w as nat));
    push_str(out, line.as_str());
}

/// The unified diff of two texts for the file at `file_path`: empty when
/// neither text has a line, else `--- a/<path>`, `+++ b/<path>` and one
/// line per diff line with marker, right-aligned numbers and content.
pub fn format_diff(old_text: &str, new_text: &str, file_path: &str) -> (r: String)
    ensures
        exists|ls: Seq<DiffLine>| is_line_diff(ls, spec_lines(old_text@), spec_lines(new_text@))
            && r@ == unified(ls, file_path@),
{
    let diff = compute_diff(old_text, new_text);
    let ghost ls = diff.lines@;
    if diff.lines.len() == 0 {
        assert(unified(ls, file_path@) == Seq::<char>::empty());
        return String::new();
    }
    let mut max: Option<usize> = None;
    let mut i: usize = 0;
    while i < diff.lines.len()
        invariant
            i <= diff.lines.len(),
            ls == diff.lines@,
            max == max_line_no(ls.take(i as int)),
        decreases diff.lines.len() - i,
    {
        let l = &diff.lines[i];
        let x = match l.old_line {
            Some(v) => Some(v),
            None => l.new_line,
        };
        assert(ls.take(i + 1).drop_last() == ls.take(i as int));
        max = match (max, x) {
            (None, x) => x,
            (Some(a), None) => Some(a),
            (Some(a), Some(b)) => Some(if a >= b { a } else { b }),
        };
        i = i + 1;
    }
    assert(ls.take(ls.len() as int) == ls);
    let width = match max {
        Some(m) => dec_len(m as u64),
        None => 1,
    };
    let mut out = String::new();
    push_str(&mut out, "--- a/");
    push_str(&mut out, file_path);
    push_str(&mut out, "\n+++ b/");
    push_str(&mut out, file_path);
    push_str(&mut out, "\n");
    let ghost head = out@;
    let mut i: usize = 0;
    while i < diff.lines.len()
        invariant
            i <= diff.lines.len(),
            ls == diff.lines@,
            width == diff_width(ls),
            out@ == head + render_lines(ls.take(i as int), width as nat),
        decreases diff.lines.len() - i,
    {
        let ghost before = out@;
        push_rendered_line(&mut out, &diff.lines[i], width);
        assert(ls.take(i + 1).drop_last() == ls.take(i as int));
        assert(out@ == head + render_lines(ls.take(i + 1), width as nat));
        i = i + 1;
    }
    assert(out@ =~= unified(ls, file_path@));
    out
}

} // verus!
