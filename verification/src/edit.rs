//! Exact-match file edits: the old text must occur exactly once; it is
//! replaced, and the edit is reported with its line and a unified diff.

use vstd::prelude::*;
use crate::diff::{format_diff, is_line_diff, unified, DiffLine};
use crate::text::{dec, first_occurrence, from_chars, has_prefix, occurs_at, push_dec, push_str, spec_lines, split_lines, starts_with_at, strs_view, sub_chars, to_chars, trim, trim_chars};

verus! {

/// The number of non-overlapping occurrences of `p` in `s`, scanning from
/// the left (`str::matches(..).count()`); an empty pattern occurs at each
/// of the `s.len() + 1` positions.
pub open spec fn count_occurrences(s: Seq<char>, p: Seq<char>) -> nat
    decreases s.len(),
{
    if p.len() == 0 {
        s.len() + 1
    } else if s.len() < p.len() {
        0
    } else if has_prefix(s, p) {
        1 + count_occurrences(s.skip(p.len() as int), p)
    } else {
        count_occurrences(s.drop_first(), p)
    }
}

/// `s` with its first occurrence of `p` replaced by `q`
/// (`str::replacen(p, q, 1)`).
pub open spec fn replace_first(s: Seq<char>, p: Seq<char>, q: Seq<char>) -> Seq<char> {
    if exists|i: int| first_occurrence(s, p, i) {
        let i = choose|i: int| first_occurrence(s, p, i);
        s.take(i) + q + s.skip(i + p.len())
    } else {
        s
    }
}

/// `p` occurs in `s`.
pub open spec fn contains_text(s: Seq<char>, p: Seq<char>) -> bool {
    exists|i: int| occurs_at(s, p, i)
}

/// The number (from 1) of the first line that contains `p`.
pub open spec fn first_line_with(lines: Seq<Seq<char>>, p: Seq<char>) -> Option<nat>
    decreases lines.len(),
{
    if lines.len() == 0 {
        None
    } else if contains_text(lines[0], p) {
        Some(1)
    } else {
        match first_line_with(lines.drop_first(), p) {
            Some(n) => Some(n + 1),
            None => None,
        }
    }
}

/// How an edit is reported: the file, the line of the old text if a line
/// contains it, and the diff in a fenced block unless it is empty.
pub open spec fn edit_report(path: Seq<char>, line: Option<nat>, diff: Seq<char>) -> Seq<char> {
    let shown = if diff.len() == 0 {
        Seq::empty()
    } else {
        "\n```diff\n"@ + trim(diff) + "\n```"@
    };
    match line {
        Some(n) => "Edited "@ + path + " at line "@ + dec(n) + shown,
        None => "Edited "@ + path + shown,
    }
}

/// The error for an old text that does not occur.
pub open spec fn not_found_message(path: Seq<char>) -> Seq<char> {
    "oldText not found in '"@ + path + "'. The exact text must exist in the file."@
}

/// The error for an old text that occurs `n` times.
pub open spec fn ambiguous_edit_message(path: Seq<char>, n: nat) -> Seq<char> {
    "oldText found "@ + dec(n) + " times in '"@ + path
        + "'. It must match exactly once to avoid ambiguous edits."@
}

fn count_exec(s: &[char], p: &str) -> (r: usize)
    requires
        s@.len() < usize::MAX,
    ensures
        r == count_occurrences(s@, p@),
{
    let pc = to_chars(p);
    let n = s.len();
    if pc.len() == 0 {
        return n + 1;
    }
    let mut i: usize = 0;
    let mut c: usize = 0;
    assert(s@.skip(0) =~= s@);
    while i < n
        invariant
            i <= n,
            n == s@.len(),
            pc@ == p@,
            pc@.len() > 0,
            c <= i,
            c + count_occurrences(s@.skip(i as int), p@) == count_occurrences(s@, p@),
        decreases n - i,
    {
        let ghost t = s@.skip(i as int);
        if pc.len() <= n - i && starts_with_at(s, i, p) {
            assert(t.skip(p@.len() as int) =~= s@.skip(i + p@.len()));
            c = c + 1;
            i = i + pc.len();
        } else {
            if pc.len() > n - i {
                assert(count_occurrences(t, p@) == 0);
                assert(s@.skip(n as int).len() == 0);
                assert(count_occurrences(s@.skip(n as int), p@) == 0);
                i = n;
            } else {
                assert(t.drop_first() =~= s@.skip(i + 1));
                i = i + 1;
            }
        }
    }
    assert(s@.skip(n as int).len() == 0);
    c
}

fn replace_first_exec(s: &[char], p: &str, q: &str) -> (r: String)
    ensures
        r@ == replace_first(s@, p@, q@),
{
    match crate::text::find_pattern(s, p) {
        Some(i) => {
            proof {
                let j = choose|j: int| first_occurrence(s@, p@, j);
                if j < i {
                    assert(!occurs_at(s@, p@, j));
                } else if i < j {
                    assert(!occurs_at(s@, p@, i as int));
                }
            }
            let n = s.len();
            let m = to_chars(p).len();
            let mut r = from_chars(sub_chars(s, 0, i).as_slice());
            push_str(&mut r, q);
            let rest = from_chars(sub_chars(s, i + m, n).as_slice());
            push_str(&mut r, rest.as_str());
            assert(s@.subrange(0, i as int) =~= s@.take(i as int));
            assert(s@.subrange(i + m, n as int) =~= s@.skip(i + p@.len()));
            r
        },
        None => {
            proof {
                assert forall|i: int| !first_occurrence(s@, p@, i) by {}
            }
            from_chars(s)
        },
    }
}

fn line_of_first(content: &str, p: &str) -> (r: Option<u64>)
    requires
        spec_lines(content@).len() < u64::MAX,
    ensures
        match first_line_with(spec_lines(content@), p@) {
            Some(n) => n <= spec_lines(content@).len() && r == Some(n as u64),
            None => r is None,
        },
{
    let lines = split_lines(content);
    let ghost ls = strs_view(lines@);
    let mut i: usize = 0;
    assert(ls.skip(0) =~= ls);
    while i < lines.len()
        invariant
            i <= lines@.len(),
            ls == strs_view(lines@),
            ls == spec_lines(content@),
            lines@.len() < u64::MAX,
            first_line_with(ls, p@) == (match first_line_with(ls.skip(i as int), p@) {
                Some(n) => Some((n + i) as nat),
                None => None,
            }),
        decreases lines.len() - i,
    {
        let l = to_chars(lines[i].as_str());
        assert(ls.skip(i as int)[0] == l@);
        assert(ls.skip(i as int).drop_first() =~= ls.skip(i + 1));
        match crate::text::find_pattern(l.as_slice(), p) {
            Some(_) => {
                return Some((i + 1) as u64);
            },
            None => {
                assert(!contains_text(l@, p@));
            },
        }
        i = i + 1;
    }
    None
}

/// Edits `content`: replaces the only occurrence of `old_text` by
/// `new_text`. Returns the new text and the report, or the error when
/// `old_text` occurs no time or several times.
pub fn plan_edit(content: &str, old_text: &str, new_text: &str, path: &str) -> (r: Result<(String, String), String>)
    requires
        content@.len() < usize::MAX,
        spec_lines(content@).len() < u64::MAX,
    ensures
        count_occurrences(content@, old_text@) == 0 ==> (r matches Err(m) && m@ == not_found_message(path@)),
        count_occurrences(content@, old_text@) > 1 ==> (r matches Err(m) && m@ == ambiguous_edit_message(
            path@,
            count_occurrences(content@, old_text@),
        )),
        count_occurrences(content@, old_text@) == 1 ==> (r matches Ok((new_content, report)) && {
            &&& new_content@ == replace_first(content@, old_text@, new_text@)
            &&& exists|ls: Seq<DiffLine>, d: Seq<char>|
                is_line_diff(ls, spec_lines(content@), spec_lines(new_content@)) && d == unified(ls, path@)
                    && report@ == edit_report(path@, first_line_with(spec_lines(content@), old_text@), d)
        }),
{
    let cs = to_chars(content);
    let count = count_exec(cs.as_slice(), old_text);
    if count == 0 {
        let mut m = String::new();
        push_str(&mut m, "oldText not found in '");
        push_str(&mut m, path);
        push_str(&mut m, "'. The exact text must exist in the file.");
        return Err(m);
    }
    if count > 1 {
        let mut m = String::new();
        push_str(&mut m, "oldText found ");
        push_dec(&mut m, count as u64);
        push_str(&mut m, " times in '");
        push_str(&mut m, path);
        push_str(&mut m, "'. It must match exactly once to avoid ambiguous edits.");
        return Err(m);
    }
    let new_content = replace_first_exec(cs.as_slice(), old_text, new_text);
    let diff = format_diff(content, new_content.as_str(), path);
    let ghost d = diff@;
    let line = line_of_first(content, old_text);
    let mut report = String::new();
    push_str(&mut report, "Edited ");
    push_str(&mut report, path);
    match line {
        Some(n) => {
            push_str(&mut report, " at line ");
            push_dec(&mut report, n);
        },
        None => {},
    }
    let ghost head = report@;
    let ghost fl = first_line_with(spec_lines(content@), old_text@);
    assert(fl is Some ==> head == "Edited "@ + path@ + " at line "@ + dec(fl->0));
    assert(fl is None ==> head == "Edited "@ + path@);
    let ghost shown = if d.len() == 0 {
        Seq::<char>::empty()
    } else {
        "\n```diff\n"@ + trim(d) + "\n```"@
    };
    let dc = to_chars(diff.as_str());
    if dc.len() > 0 {
        push_str(&mut report, "\n```diff\n");
        let t = from_chars(trim_chars(dc.as_slice(), 0, dc.len()).as_slice());
        assert(dc@.subrange(0, dc@.len() as int) =~= dc@);
        push_str(&mut report, t.as_str());
        push_str(&mut report, "\n```");
    }
    proof {
        assert(dc@.len() == 0 ==> d =~= Seq::<char>::empty());
        assert(report@ =~= head + shown);
        assert(report@ == edit_report(path@, first_line_with(spec_lines(content@), old_text@), d));
        let ls = choose|ls: Seq<DiffLine>|
            is_line_diff(ls, spec_lines(content@), spec_lines(new_content@)) && d == unified(ls, path@);
        assert(is_line_diff(ls, spec_lines(content@), spec_lines(new_content@)) && d == unified(ls, path@)
            && report@ == edit_report(path@, first_line_with(spec_lines(content@), old_text@), d));
    }
    Ok((new_content, report))
}

} // verus!
