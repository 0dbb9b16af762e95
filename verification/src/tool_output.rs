//! What the file tools answer once the file system has been read: the
//! directory listing of `ls`, the matches of `grep`, the paths of `find`,
//! the report of a shell command and of a write.

use vstd::prelude::*;
use vstd::multiset::Multiset;
use crate::text::{dec, pad_left, push_dec, push_spaces, push_str, spaces, str_eq, to_chars, utf8_len};
use crate::text::{byte_len, join_lines, join_nl, strs_view};
use crate::tools::{format_human_size, human_size};
use crate::text::{from_chars, spec_lines, split_lines, trim, trim_chars};
use crate::truncate::{needs_truncation, truncate_output, truncated_text};
use crate::tool_registry::ToolResult;
use crate::session_log::{push_signed, signed_dec};
use crate::sse::{decode_utf8_lossy, utf8_lossy};
use crate::diff::{format_diff, is_line_diff, unified, DiffLine};

verus! {

// ---------------------------------------------------------------------
// Text order
// ---------------------------------------------------------------------

/// `a` comes before `b` in text order: character by character, a proper
/// prefix first. (On UTF-8 text this is the order of the bytes.)
pub open spec fn lex_lt(a: Seq<char>, b: Seq<char>) -> bool
    decreases a.len(),
{
    if a.len() == 0 {
        b.len() > 0
    } else if b.len() == 0 {
        false
    } else if a[0] != b[0] {
        a[0] < b[0]
    } else {
        lex_lt(a.drop_first(), b.drop_first())
    }
}

pub proof fn lemma_lex_irreflexive(a: Seq<char>)
    ensures
        !lex_lt(a, a),
    decreases a.len(),
{
    if a.len() > 0 {
        lemma_lex_irreflexive(a.drop_first());
    }
}

pub proof fn lemma_lex_transitive(a: Seq<char>, b: Seq<char>, c: Seq<char>)
    requires
        lex_lt(a, b),
        lex_lt(b, c),
    ensures
        lex_lt(a, c),
    decreases a.len(),
{
    if a.len() > 0 && b.len() > 0 && c.len() > 0 && a[0] == b[0] && b[0] == c[0] {
        lemma_lex_transitive(a.drop_first(), b.drop_first(), c.drop_first());
    }
}

/// Of two different texts one comes first.
pub proof fn lemma_lex_total(a: Seq<char>, b: Seq<char>)
    requires
        a != b,
    ensures
        lex_lt(a, b) || lex_lt(b, a),
    decreases a.len(),
{
    if a.len() == 0 && b.len() == 0 {
        assert(a =~= b);
    } else if a.len() > 0 && b.len() > 0 && a[0] != b[0] {
    } else if a.len() > 0 && b.len() > 0 && a[0] == b[0] {
        if a.drop_first() == b.drop_first() {
            assert(a =~= seq![a[0]] + a.drop_first());
            assert(b =~= seq![b[0]] + b.drop_first());
        }
        lemma_lex_total(a.drop_first(), b.drop_first());
    }
}

/// Whether `a` comes before `b` in text order.
pub fn text_before(a: &str, b: &str) -> (r: bool)
    ensures
        r == lex_lt(a@, b@),
{
    let x = to_chars(a);
    let y = to_chars(b);
    let mut i: usize = 0;
    assert(a@.skip(0) =~= a@);
    assert(b@.skip(0) =~= b@);
    while i < x.len() && i < y.len() && x[i] == y[i]
        invariant
            i <= x.len(),
            i <= y.len(),
            x@ == a@,
            y@ == b@,
            lex_lt(a@, b@) == lex_lt(a@.skip(i as int), b@.skip(i as int)),
        decreases x.len() - i,
    {
        proof {
            let s = a@.skip(i as int);
            let t = b@.skip(i as int);
            assert(s.drop_first() =~= a@.skip(i + 1));
            assert(t.drop_first() =~= b@.skip(i + 1));
        }
        i = i + 1;
    }
    if i == x.len() {
        proof { assert(a@.skip(i as int).len() == 0); }
        i < y.len()
    } else if i == y.len() {
        false
    } else {
        proof {
            assert(a@.skip(i as int)[0] == x@[i as int]);
            assert(b@.skip(i as int)[0] == y@[i as int]);
        }
        x[i] < y[i]
    }
}

// ---------------------------------------------------------------------
// Directory listings
// ---------------------------------------------------------------------

/// One entry of a directory: its name, whether it is a directory, its size
/// (0 for anything but a file) and its modification time as text.
#[derive(Debug)]
pub struct LsEntry {
    pub name: String,
    pub is_dir: bool,
    pub size: u64,
    pub modified: String,
}

/// The orders a listing can take.
#[derive(Debug, Clone, Copy, PartialEq, Eq, Structural)]
pub enum LsOrder {
    /// By name.
    Name,
    /// Largest first, then by name.
    Size,
    /// Newest first, then by name.
    Modified,
}

/// The order named by the `sort_by` parameter: `size`, `modified`, or by
/// name for anything else.
pub open spec fn order_named(s: Seq<char>) -> LsOrder {
    if s == "size"@ {
        LsOrder::Size
    } else if s == "modified"@ {
        LsOrder::Modified
    } else {
        LsOrder::Name
    }
}

/// The order named by the `sort_by` parameter.
pub fn ls_order(sort_by: &str) -> (o: LsOrder)
    ensures
        o == order_named(sort_by@),
{
    if str_eq(sort_by, "size") {
        LsOrder::Size
    } else if str_eq(sort_by, "modified") {
        LsOrder::Modified
    } else {
        LsOrder::Name
    }
}

/// `a` comes before `b` in the listing.
pub open spec fn ls_before(o: LsOrder, a: LsEntry, b: LsEntry) -> bool {
    match o {
        LsOrder::Name => lex_lt(a.name@, b.name@),
        LsOrder::Size => a.size > b.size || (a.size == b.size && lex_lt(a.name@, b.name@)),
        LsOrder::Modified => lex_lt(b.modified@, a.modified@)
            || (a.modified@ == b.modified@ && lex_lt(a.name@, b.name@)),
    }
}

proof fn lemma_ls_before_transitive(o: LsOrder, a: LsEntry, b: LsEntry, c: LsEntry)
    requires
        ls_before(o, a, b),
        ls_before(o, b, c),
    ensures
        ls_before(o, a, c),
{
    match o {
        LsOrder::Name => lemma_lex_transitive(a.name@, b.name@, c.name@),
        LsOrder::Size => {
            if a.size == b.size && b.size == c.size {
                lemma_lex_transitive(a.name@, b.name@, c.name@);
            }
        },
        LsOrder::Modified => {
            if lex_lt(b.modified@, a.modified@) && lex_lt(c.modified@, b.modified@) {
                lemma_lex_transitive(c.modified@, b.modified@, a.modified@);
            } else if a.modified@ == b.modified@ && b.modified@ == c.modified@ {
                lemma_lex_transitive(a.name@, b.name@, c.name@);
            }
        },
    }
}

proof fn lemma_ls_before_irreflexive(o: LsOrder, a: LsEntry)
    ensures
        !ls_before(o, a, a),
{
    lemma_lex_irreflexive(a.name@);
    lemma_lex_irreflexive(a.modified@);
}

/// The entries are in listing order: none comes before one listed earlier.
pub open spec fn ls_sorted(o: LsOrder, s: Seq<LsEntry>) -> bool {
    forall|i: int, j: int| 0 <= i < j < s.len() ==> !ls_before(o, #[trigger] s[j], #[trigger] s[i])
}

fn entry_before(o: LsOrder, a: &LsEntry, b: &LsEntry) -> (r: bool)
    ensures
        r == ls_before(o, *a, *b),
{
    match o {
        LsOrder::Name => text_before(a.name.as_str(), b.name.as_str()),
        LsOrder::Size => a.size > b.size || (a.size == b.size && text_before(a.name.as_str(), b.name.as_str())),
        LsOrder::Modified => text_before(b.modified.as_str(), a.modified.as_str())
            || (str_eq(a.modified.as_str(), b.modified.as_str()) && text_before(a.name.as_str(), b.name.as_str())),
    }
}

/// The entries, hidden ones (names starting with `.`) left out unless
/// `show_all`, in their order.
pub open spec fn visible(s: Seq<LsEntry>, show_all: bool) -> Seq<LsEntry>
    decreases s.len(),
{
    if s.len() == 0 {
        Seq::empty()
    } else {
        let rest = visible(s.drop_last(), show_all);
        if show_all || !(s.last().name@.len() > 0 && s.last().name@[0] == '.') {
            rest.push(s.last())
        } else {
            rest
        }
    }
}

/// Sorts the entries into listing order.
pub fn sort_entries(entries: Vec<LsEntry>, o: LsOrder) -> (r: Vec<LsEntry>)
    ensures
        ls_sorted(o, r@),
        r@.to_multiset() == entries@.to_multiset(),
{
    let ghost input = entries@;
    let mut rest = entries;
    let mut out: Vec<LsEntry> = Vec::new();
    proof {
        assert(input.subrange(0, 0) =~= Seq::<LsEntry>::empty());
        assert(out@ =~= Seq::<LsEntry>::empty());
    }
    let mut taken: usize = 0;
    assert(rest.len() == input.len());
    while rest.len() > 0
        invariant
            input.len() <= usize::MAX,
            taken + rest@.len() == input.len(),
            rest@ == input.subrange(taken as int, input.len() as int),
            ls_sorted(o, out@),
            out@.to_multiset() == input.subrange(0, taken as int).to_multiset(),
        decreases rest@.len(),
    {
        let ghost r0 = rest@;
        let e = rest.remove(0);
        assert(e == input[taken as int]);
        assert(rest@ =~= input.subrange(taken + 1, input.len() as int));
        let mut p: usize = 0;
        while p < out.len() && !entry_before(o, &e, &out[p])
            invariant
                p <= out.len(),
                forall|k: int| 0 <= k < p ==> !ls_before(o, e, #[trigger] out@[k]),
            decreases out.len() - p,
        {
            p = p + 1;
        }
        let ghost before = out@;
        out.insert(p, e);
        proof {
            assert(out@ =~= before.insert(p as int, e));
            assert forall|i: int, j: int| 0 <= i < j < out@.len() implies !ls_before(o, #[trigger] out@[j], #[trigger] out@[i]) by {
                if j < p {
                    assert(out@[i] == before[i] && out@[j] == before[j]);
                } else if j == p {
                    assert(out@[i] == before[i]);
                } else if i == p {
                    assert(out@[j] == before[j - 1]);
                    if ls_before(o, out@[j], e) {
                        assert(p < before.len());
                        assert(ls_before(o, e, before[p as int]));
                        lemma_ls_before_transitive(o, before[j - 1], e, before[p as int]);
                        if j - 1 == p {
                            lemma_ls_before_irreflexive(o, before[p as int]);
                        }
                    }
                } else if i < p {
                    assert(out@[i] == before[i] && out@[j] == before[j - 1]);
                } else {
                    assert(out@[i] == before[i - 1] && out@[j] == before[j - 1]);
                }
            }
            broadcast use vstd::seq_lib::group_to_multiset_ensures;
            assert(out@.remove(p as int) =~= before);
            assert(out@[p as int] == e);
            assert(out@.contains(e));
            let m = out@.to_multiset();
            assert(before.to_multiset() =~= m.remove(e));
            assert(m =~= before.to_multiset().insert(e));
            assert(input.subrange(0, taken + 1) =~= input.subrange(0, taken as int).push(e));
        }
        taken = taken + 1;
    }
    assert(input.subrange(0, input.len() as int) =~= input);
    out
}

/// The widest name in bytes, or 20 when there are no entries.
pub open spec fn widest_name(s: Seq<LsEntry>) -> nat
    decreases s.len(),
{
    if s.len() == 0 {
        20
    } else if s.len() == 1 {
        utf8_len(s[0].name@)
    } else {
        let w = widest_name(s.drop_last());
        let l = utf8_len(s.last().name@);
        if l > w { l } else { w }
    }
}

/// The width of the name column: the widest name, at least 20, and one
/// more.
pub open spec fn name_column(s: Seq<LsEntry>) -> nat {
    (if widest_name(s) > 20 { widest_name(s) } else { 20 }) + 1
}

/// `s` followed by spaces up to `width` characters.
pub open spec fn pad_right(s: Seq<char>, width: nat) -> Seq<char> {
    if s.len() < width { s + spaces((width - s.len()) as nat) } else { s }
}

/// A size as the listing shows it: human-readable, or `-` for none.
pub open spec fn size_text(size: u64) -> Seq<char> {
    if size > 0 { human_size(size as nat) } else { "-"@ }
}

/// One line of the listing.
pub open spec fn ls_line(e: LsEntry, column: nat) -> Seq<char> {
    "  "@ + pad_right(e.name@, column) + (if e.is_dir { "/"@ } else { " "@ }) + " "@
        + pad_left(size_text(e.size), 8) + "  "@ + e.modified@
}

/// The listing of the entries of `path` in the order given: a heading with
/// the count, a blank line, and a line per entry.
pub open spec fn ls_text(path: Seq<char>, s: Seq<LsEntry>) -> Seq<char> {
    join_nl(seq![path + " ("@ + dec(s.len()) + " entries)"@, Seq::empty()]
        + s.map_values(|e: LsEntry| ls_line(e, name_column(s))))
}

fn push_padded_right(out: &mut String, t: &str, width: usize)
    ensures
        final(out)@ == old(out)@ + pad_right(t@, width as nat),
{
    let n = to_chars(t).len();
    push_str(out, t);
    if n < width {
        push_spaces(out, width - n);
    }
}

fn ls_line_of(e: &LsEntry, column: usize) -> (r: String)
    ensures
        r@ == ls_line(*e, column as nat),
{
    let mut r = String::new();
    proof { reveal_strlit("  "); reveal_strlit("/"); reveal_strlit(" "); reveal_strlit("-"); }
    push_str(&mut r, "  ");
    push_padded_right(&mut r, e.name.as_str(), column);
    if e.is_dir {
        push_str(&mut r, "/");
    } else {
        push_str(&mut r, " ");
    }
    push_str(&mut r, " ");
    let size = if e.size > 0 { format_human_size(e.size) } else { "-".to_string() };
    let sn = to_chars(size.as_str()).len();
    if sn < 8 {
        push_spaces(&mut r, 8 - sn);
    }
    push_str(&mut r, size.as_str());
    push_str(&mut r, "  ");
    push_str(&mut r, e.modified.as_str());
    r
}

fn widest(s: &Vec<LsEntry>) -> (w: usize)
    ensures
        w == widest_name(s@),
{
    if s.len() == 0 {
        return 20;
    }
    let mut w = byte_len(s[0].name.as_str());
    let mut i: usize = 1;
    assert(s@.subrange(0, 1).len() == 1);
    while i < s.len()
        invariant
            1 <= i <= s.len(),
            w == widest_name(s@.subrange(0, i as int)),
        decreases s.len() - i,
    {
        assert(s@.subrange(0, i + 1).drop_last() =~= s@.subrange(0, i as int));
        let l = byte_len(s[i].name.as_str());
        if l > w {
            w = l;
        }
        i = i + 1;
    }
    assert(s@.subrange(0, s.len() as int) =~= s@);
    w
}

/// The listing of `path`: the entries, hidden ones left out unless
/// `show_all`, sorted in the order `sort_by` names.
pub fn ls_listing(path: &str, entries: Vec<LsEntry>, show_all: bool, sort_by: &str) -> (r: String)
    requires
        forall|k: int| 0 <= k < entries@.len() ==> utf8_len(#[trigger] entries@[k].name@) < usize::MAX,
    ensures
        exists|s: Seq<LsEntry>| {
            &&& ls_sorted(order_named(sort_by@), s)
            &&& s.to_multiset() == visible(entries@, show_all).to_multiset()
            &&& r@ == ls_text(path@, s)
        },
{
    let ghost all = entries@;
    let mut kept: Vec<LsEntry> = Vec::new();
    let mut rest = entries;
    let mut taken: usize = 0;
    assert(all.subrange(0, 0) =~= Seq::<LsEntry>::empty());
    assert(rest.len() == all.len());
    while rest.len() > 0
        invariant
            all.len() <= usize::MAX,
            taken + rest@.len() == all.len(),
            rest@ == all.subrange(taken as int, all.len() as int),
            kept@ == visible(all.subrange(0, taken as int), show_all),
            forall|k: int| 0 <= k < all.len() ==> utf8_len(#[trigger] all[k].name@) < usize::MAX,
            forall|k: int| 0 <= k < kept@.len() ==> utf8_len(#[trigger] kept@[k].name@) < usize::MAX,
        decreases rest@.len(),
    {
        let e = rest.remove(0);
        assert(e == all[taken as int]);
        assert(rest@ =~= all.subrange(taken + 1, all.len() as int));
        assert(all.subrange(0, taken + 1).drop_last() =~= all.subrange(0, taken as int));
        let cs = to_chars(e.name.as_str());
        let hidden = cs.len() > 0 && cs[0] == '.';
        if show_all || !hidden {
            kept.push(e);
        }
        taken = taken + 1;
    }
    assert(all.subrange(0, all.len() as int) =~= all);
    let ghost kv = kept@;
    let sorted = sort_entries(kept, ls_order(sort_by));
    proof {
        broadcast use vstd::seq_lib::group_to_multiset_ensures;
        assert forall|k: int| 0 <= k < sorted@.len() implies utf8_len(#[trigger] sorted@[k].name@) < usize::MAX by {
            let x = sorted@[k];
            assert(sorted@.contains(x));
            assert(sorted@.to_multiset().count(x) > 0);
            assert(kv.contains(x));
            let j = choose|j: int| 0 <= j < kv.len() && kv[j] == x;
            assert(utf8_len(kv[j].name@) < usize::MAX);
        }
        lemma_widest_bound(sorted@);
    }
    let w = widest(&sorted);
    let column = (if w > 20 { w } else { 20 }) + 1;
    let mut lines: Vec<String> = Vec::new();
    let mut head = path.to_string();
    proof { reveal_strlit(" ("); reveal_strlit(" entries)"); }
    push_str(&mut head, " (");
    push_dec(&mut head, sorted.len() as u64);
    push_str(&mut head, " entries)");
    lines.push(head);
    lines.push(String::new());
    let ghost sv = sorted@;
    let mut i: usize = 0;
    while i < sorted.len()
        invariant
            i <= sorted.len(),
            sv == sorted@,
            column == name_column(sv),
            strs_view(lines@) == seq![path@ + " ("@ + dec(sv.len()) + " entries)"@, Seq::<char>::empty()]
                + sv.subrange(0, i as int).map_values(|e: LsEntry| ls_line(e, name_column(sv))),
        decreases sorted.len() - i,
    {
        let ghost before = strs_view(lines@);
        lines.push(ls_line_of(&sorted[i], column));
        assert(strs_view(lines@) =~= before.push(ls_line(sv[i as int], column as nat)));
        assert(sv.subrange(0, i + 1).map_values(|e: LsEntry| ls_line(e, name_column(sv)))
            =~= sv.subrange(0, i as int).map_values(|e: LsEntry| ls_line(e, name_column(sv))).push(ls_line(sv[i as int], name_column(sv))));
        i = i + 1;
    }
    assert(sv.subrange(0, sorted.len() as int) =~= sv);
    let r = join_lines(lines.as_slice());
    assert(r@ == ls_text(path@, sv));
    r
}

proof fn lemma_widest_bound(s: Seq<LsEntry>)
    requires
        forall|k: int| 0 <= k < s.len() ==> utf8_len(#[trigger] s[k].name@) < usize::MAX,
    ensures
        widest_name(s) < usize::MAX,
    decreases s.len(),
{
    if s.len() > 1 {
        let t = s.drop_last();
        assert forall|k: int| 0 <= k < t.len() implies utf8_len(#[trigger] t[k].name@) < usize::MAX by {
            assert(t[k] == s[k]);
        }
        lemma_widest_bound(t);
        assert(utf8_len(s[s.len() - 1].name@) < usize::MAX);
    } else if s.len() == 1 {
        assert(utf8_len(s[0].name@) < usize::MAX);
    }
}

// ---------------------------------------------------------------------
// Shell commands
// ---------------------------------------------------------------------

/// The bytes a command wrote, read as UTF-8 with invalid sequences
/// replaced.
pub fn decode_output(bytes: &[u8]) -> (s: String)
    ensures
        s@ == utf8_lossy(bytes@),
{
    decode_utf8_lossy(bytes)
}

/// What a command wrote: its standard output, then its error output under
/// a `[stderr]` line when there is any.
pub open spec fn bash_combined(stdout: Seq<char>, stderr: Seq<char>) -> Seq<char> {
    if stderr.len() == 0 { stdout } else { stdout + "\n[stderr]\n"@ + stderr }
}

/// Both outputs of a command as one text.
pub fn combine_streams(stdout: &str, stderr: &str) -> (r: String)
    ensures
        r@ == bash_combined(stdout@, stderr@),
{
    let mut r = String::new();
    push_str(&mut r, stdout);
    if to_chars(stderr).len() > 0 {
        proof { reveal_strlit("\n[stderr]\n"); }
        push_str(&mut r, "\n[stderr]\n");
        push_str(&mut r, stderr);
    }
    r
}

/// The report of a finished command: its output cut down, the exit code
/// when it is not 0, and the original size when the output was cut.
pub open spec fn bash_output(combined: Seq<char>, exit_code: i32) -> Seq<char> {
    truncated_text(combined) + (if exit_code != 0 {
        "\n[exit code: "@ + signed_dec(exit_code as int) + "]"@
    } else {
        Seq::empty()
    }) + (if needs_truncation(combined) {
        "\n[original: "@ + dec(spec_lines(combined).len()) + " lines, "@ + dec(utf8_len(combined))
            + " bytes]"@
    } else {
        Seq::empty()
    })
}

/// The result of a command that finished with `exit_code` after writing
/// `combined`: an error exactly when the exit code is not 0.
pub fn bash_report(combined: &str, exit_code: i32) -> (r: ToolResult)
    ensures
        r.output@ == bash_output(combined@, exit_code),
        r.is_error == (exit_code != 0),
        r.tool_use_id@ == Seq::<char>::empty(),
        r.duration_ms is None,
{
    let t = truncate_output(combined);
    let mut output = t.output;
    if exit_code != 0 {
        proof { reveal_strlit("\n[exit code: "); reveal_strlit("]"); }
        push_str(&mut output, "\n[exit code: ");
        push_signed(&mut output, exit_code as i64);
        push_str(&mut output, "]");
    }
    if t.truncated {
        proof { reveal_strlit("\n[original: "); reveal_strlit(" lines, "); reveal_strlit(" bytes]"); }
        push_str(&mut output, "\n[original: ");
        push_dec(&mut output, t.original_lines as u64);
        push_str(&mut output, " lines, ");
        push_dec(&mut output, t.original_bytes as u64);
        push_str(&mut output, " bytes]");
    }
    assert(output@ =~= bash_output(combined@, exit_code));
    ToolResult { tool_use_id: String::new(), output, is_error: exit_code != 0, duration_ms: None }
}

/// The error of a command stopped after `secs` seconds.
pub open spec fn timeout_message(secs: u64, command: Seq<char>) -> Seq<char> {
    "command timed out after "@ + dec(secs as nat) + "s: "@ + command
}

/// The error of a command stopped after `secs` seconds.
pub fn command_timed_out(secs: u64, command: &str) -> (r: String)
    ensures
        r@ == timeout_message(secs, command@),
{
    let mut r = String::new();
    proof { reveal_strlit("command timed out after "); reveal_strlit("s: "); }
    push_str(&mut r, "command timed out after ");
    push_dec(&mut r, secs);
    push_str(&mut r, "s: ");
    push_str(&mut r, command);
    r
}

// ---------------------------------------------------------------------
// Writing files
// ---------------------------------------------------------------------

/// The report of writing `content` to `path` over `old` (empty when there
/// was no file), with `diff` the unified diff of the two: the size, and
/// then the diff, or a note that the file is new.
pub open spec fn write_output(path: Seq<char>, content: Seq<char>, old: Seq<char>, diff: Seq<char>) -> Seq<char> {
    "Wrote "@ + dec(utf8_len(content)) + " bytes, "@ + dec(spec_lines(content).len()) + " lines to "@
        + path + (if old.len() > 0 && old != content {
        if diff.len() == 0 { Seq::empty() } else { "\n```diff\n"@ + trim(diff) + "\n```"@ }
    } else if old.len() == 0 {
        " (new file)"@
    } else {
        Seq::empty()
    })
}

/// The report of writing `content` to `path`, where the file held `old`
/// before (empty when there was none).
pub fn write_report(path: &str, content: &str, old: &str) -> (r: String)
    ensures
        (old@.len() > 0 && old@ != content@) ==> exists|ls: Seq<DiffLine>| {
            &&& is_line_diff(ls, spec_lines(old@), spec_lines(content@))
            &&& r@ == write_output(path@, content@, old@, unified(ls, path@))
        },
        !(old@.len() > 0 && old@ != content@) ==> r@ == write_output(path@, content@, old@, Seq::empty()),
{
    let mut r = String::new();
    proof { reveal_strlit("Wrote "); reveal_strlit(" bytes, "); reveal_strlit(" lines to "); }
    push_str(&mut r, "Wrote ");
    push_dec(&mut r, byte_len(content) as u64);
    push_str(&mut r, " bytes, ");
    let lines = split_lines(content);
    push_dec(&mut r, lines.len() as u64);
    push_str(&mut r, " lines to ");
    push_str(&mut r, path);
    let old_len = to_chars(old).len();
    if old_len > 0 && !str_eq(old, content) {
        let diff = format_diff(old, content, path);
        let d = to_chars(diff.as_str());
        if d.len() > 0 {
            let t = trim_chars(d.as_slice(), 0, d.len());
            let ts = from_chars(t.as_slice());
            proof { reveal_strlit("\n```diff\n"); reveal_strlit("\n```"); }
            push_str(&mut r, "\n```diff\n");
            push_str(&mut r, ts.as_str());
            push_str(&mut r, "\n```");
            assert(d@.subrange(0, d@.len() as int) =~= diff@);
        }
        assert(r@ =~= write_output(path@, content@, old@, diff@));
    } else if old_len == 0 {
        proof { reveal_strlit(" (new file)"); }
        push_str(&mut r, " (new file)");
        assert(r@ =~= write_output(path@, content@, old@, Seq::empty()));
    } else {
        assert(r@ =~= write_output(path@, content@, old@, Seq::empty()));
    }
    r
}

} // verus!
