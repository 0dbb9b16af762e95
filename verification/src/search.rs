//! Searching file contents (`grep`) and file names (`find`): which paths
//! are searched, which lines match, and the report the model reads.
//! Walking the directories and reading the files is left to the caller,
//! which hands each path and each file's text to the functions here.

use vstd::prelude::*;
use crate::text::{dec, from_chars, has_prefix, join_lines, join_nl, push_dec, push_str, spec_lines, split_lines, str_eq, strs_view, to_chars, trim_end, trim_end_chars, trim_start_char, trim_start_char_from};
use crate::tool_output::{lemma_lex_irreflexive, lemma_lex_transitive, lex_lt, text_before};
use crate::truncate::{needs_truncation, truncate_output, truncated_text};

verus! {

// ---------------------------------------------------------------------
// Paths that are never searched
// ---------------------------------------------------------------------

/// A path component that keeps its path out of a search: hidden (starting
/// with `.`), or one of the dependency and build directories.
pub open spec fn skipped_component(c: Seq<char>) -> bool {
    (c.len() > 0 && c[0] == '.') || c == "node_modules"@ || c == "target"@ || c == "dist"@
}

/// Some component of the path keeps it out of a search.
pub open spec fn skips_path(components: Seq<Seq<char>>) -> bool {
    exists|i: int| 0 <= i < components.len() && skipped_component(#[trigger] components[i])
}

/// Whether a path with these components is left out of a search.
pub fn path_skipped(components: &[String]) -> (r: bool)
    ensures
        r == skips_path(strs_view(components@)),
{
    let ghost cs = strs_view(components@);
    let mut i: usize = 0;
    while i < components.len()
        invariant
            i <= components@.len(),
            cs == strs_view(components@),
            forall|k: int| 0 <= k < i ==> !skipped_component(#[trigger] cs[k]),
        decreases components.len() - i,
    {
        let c = components[i].as_str();
        let chars = to_chars(c);
        proof { reveal_strlit("node_modules"); reveal_strlit("target"); reveal_strlit("dist"); }
        if (chars.len() > 0 && chars[0] == '.') || str_eq(c, "node_modules") || str_eq(c, "target")
            || str_eq(c, "dist") {
            assert(skipped_component(cs[i as int]));
            return true;
        }
        i = i + 1;
    }
    false
}

// ---------------------------------------------------------------------
// Regular expressions
// ---------------------------------------------------------------------

#[verifier::external_type_specification]
#[verifier::external_body]
pub struct ExRegex(regex::Regex);

/// A compiled regular expression together with the pattern it was
/// compiled from.
pub struct CompiledRegex {
    source: String,
    re: regex::Regex,
}

impl View for CompiledRegex {
    type V = Seq<char>;

    closed spec fn view(&self) -> Seq<char> {
        self.source@
    }
}

/// The message with which `regex::Regex::new` refuses a pattern, or `None`
/// when it accepts it.
pub uninterp spec fn regex_error(source: Seq<char>) -> Option<Seq<char>>;

/// Whether the regular expression compiled from `source` matches somewhere
/// in `haystack`.
pub uninterp spec fn regex_matches(source: Seq<char>, haystack: Seq<char>) -> bool;

/// `regex::Regex::new`: compiles `source`, or gives the error's message.
/// Claimed: the outcome is `regex_error(source)`, and a compiled regex
/// keeps `source` as its view.
#[verifier::external_body]
fn compile_regex(source: &str) -> (r: Result<CompiledRegex, String>)
    ensures
        match r {
            Ok(re) => re@ == source@ && regex_error(source@) is None,
            Err(e) => regex_error(source@) == Some(e@),
        },
{
    match regex::Regex::new(source) {
        Ok(re) => Ok(CompiledRegex { source: source.to_string(), re }),
        Err(e) => Err(e.to_string()),
    }
}

/// `regex::Regex::is_match`. Claimed: the answer is
/// `regex_matches(pattern, haystack)`.
#[verifier::external_body]
fn regex_is_match(re: &CompiledRegex, haystack: &str) -> (r: bool)
    ensures
        r == regex_matches(re@, haystack@),
{
    re.re.is_match(haystack)
}

// ---------------------------------------------------------------------
// grep
// ---------------------------------------------------------------------

/// The pattern `grep` compiles: the given one, made case-insensitive with
/// `(?i)` when asked.
pub open spec fn grep_source(pattern: Seq<char>, case_insensitive: bool) -> Seq<char> {
    if case_insensitive { "(?i)"@ + pattern } else { pattern }
}

/// The error `grep` gives for a pattern that does not compile.
pub open spec fn invalid_regex_message(pattern: Seq<char>, error: Seq<char>) -> Seq<char> {
    "invalid regex '"@ + pattern + "': "@ + error
}

/// The regular expression `grep` searches with.
pub fn grep_regex(pattern: &str, case_insensitive: bool) -> (r: Result<CompiledRegex, String>)
    ensures
        match r {
            Ok(re) => re@ == grep_source(pattern@, case_insensitive)
                && regex_error(grep_source(pattern@, case_insensitive)) is None,
            Err(e) => regex_error(grep_source(pattern@, case_insensitive)) is Some
                && e@ == invalid_regex_message(
                    pattern@,
                    regex_error(grep_source(pattern@, case_insensitive))->0,
                ),
        },
{
    let mut source = String::new();
    proof { reveal_strlit("(?i)"); }
    if case_insensitive {
        push_str(&mut source, "(?i)");
    }
    push_str(&mut source, pattern);
    assert(source@ =~= grep_source(pattern@, case_insensitive));
    match compile_regex(source.as_str()) {
        Ok(re) => Ok(re),
        Err(e) => {
            let mut m = String::new();
            proof { reveal_strlit("invalid regex '"); reveal_strlit("': "); }
            push_str(&mut m, "invalid regex '");
            push_str(&mut m, pattern);
            push_str(&mut m, "': ");
            push_str(&mut m, e.as_str());
            Err(m)
        },
    }
}

/// A match as `grep` reports it: the path, the line number from 1, a tab
/// and the line without trailing whitespace.
pub open spec fn match_line(display: Seq<char>, number: nat, line: Seq<char>) -> Seq<char> {
    display + ":"@ + dec(number) + "\t"@ + trim_end(line)
}

/// Searching `lines` from line `i` on, with the reports `found` and the
/// count `count` so far: each matching line is reported and counted, and
/// the search of the file stops right after the count passes 500.
pub open spec fn grep_lines(
    source: Seq<char>,
    display: Seq<char>,
    lines: Seq<Seq<char>>,
    i: nat,
    found: Seq<Seq<char>>,
    count: nat,
) -> (Seq<Seq<char>>, nat)
    decreases lines.len() - i,
{
    if i >= lines.len() {
        (found, count)
    } else if regex_matches(source, lines[i as int]) {
        let found2 = found.push(match_line(display, i + 1, lines[i as int]));
        if count + 1 > 500 {
            (found2, count + 1)
        } else {
            grep_lines(source, display, lines, i + 1, found2, count + 1)
        }
    } else {
        grep_lines(source, display, lines, i + 1, found, count)
    }
}

/// The progress of a search over several files: the matches reported, how
/// many there are, and in how many files they were found.
pub struct GrepState {
    results: Vec<String>,
    match_count: usize,
    file_count: usize,
}

impl GrepState {
    /// The reported lines.
    pub closed spec fn found(&self) -> Seq<Seq<char>> {
        strs_view(self.results@)
    }

    /// The number of matches counted.
    pub closed spec fn matches(&self) -> nat {
        self.match_count as nat
    }

    /// The number of files with a match.
    pub closed spec fn files(&self) -> nat {
        self.file_count as nat
    }

    /// A search that has found nothing yet.
    pub fn new() -> (s: Self)
        ensures
            s.found() == Seq::<Seq<char>>::empty(),
            s.matches() == 0,
            s.files() == 0,
    {
        let s = GrepState { results: Vec::new(), match_count: 0, file_count: 0 };
        assert(s.found() =~= Seq::<Seq<char>>::empty());
        s
    }

    /// The number of matches counted.
    pub fn match_count(&self) -> (n: usize)
        ensures
            n == self.matches(),
    {
        self.match_count
    }

    /// The number of files with a match.
    pub fn file_count(&self) -> (n: usize)
        ensures
            n == self.files(),
    {
        self.file_count
    }

    /// Searches the text of one file, shown as `display` in the reports;
    /// the file counts when it added to the matches.
    pub fn search_file(&mut self, display: &str, content: &str, re: &CompiledRegex)
        requires
            old(self).matches() < usize::MAX,
            old(self).files() < usize::MAX,
        ensures
            ({
                let (found, count) = grep_lines(re@, display@, spec_lines(content@), 0, old(self).found(), old(self).matches());
                &&& final(self).found() == found
                &&& final(self).matches() == count
                &&& final(self).files() == old(self).files() + (if count > old(self).matches() { 1nat } else { 0nat })
            }),
    {
        let ghost f0 = self.found();
        let ghost c0 = self.matches();
        let lines = split_lines(content);
        let ghost ls = strs_view(lines@);
        let ghost target = grep_lines(re@, display@, ls, 0, f0, c0);
        let before = self.match_count;
        let mut i: usize = 0;
        while i < lines.len()
            invariant_except_break
                i <= lines.len(),
                self.match_count == c0 || self.match_count <= 500,
                grep_lines(re@, display@, ls, i as nat, self.found(), self.matches()) == target,
            invariant
                ls == strs_view(lines@),
                before == c0,
                c0 < usize::MAX,
                c0 <= self.match_count,
                self.file_count == old(self).file_count,
            ensures
                self.found() == target.0,
                self.matches() == target.1,
            decreases lines.len() - i,
        {
            if regex_is_match(re, lines[i].as_str()) {
                let line = report_line(display, i + 1, lines[i].as_str());
                let ghost fb = self.found();
                self.results.push(line);
                assert(self.found() =~= fb.push(match_line(display@, (i + 1) as nat, ls[i as int])));
                self.match_count = self.match_count + 1;
                if self.match_count > 500 {
                    break;
                }
            }
            i = i + 1;
        }
        if self.match_count > before {
            self.file_count = self.file_count + 1;
        }
    }

    /// The text of the report before it is cut down: the reported lines, or
    /// a note that nothing matched.
    pub fn text(&self, pattern: &str, base_path: &str) -> (r: String)
        ensures
            r@ == grep_text(pattern@, base_path@, self.found()),
    {
        let mut text = String::new();
        proof { reveal_strlit("No matches for '"); reveal_strlit("' in "); }
        if self.results.len() == 0 {
            push_str(&mut text, "No matches for '");
            push_str(&mut text, pattern);
            push_str(&mut text, "' in ");
            push_str(&mut text, base_path);
        } else {
            text = join_lines(self.results.as_slice());
        }
        assert(text@ =~= grep_text(pattern@, base_path@, self.found()));
        text
    }

    /// The report of the search of `base_path` for `pattern`: the reported
    /// lines (or a note that nothing matched), cut down like any tool
    /// output, and a closing line with the counts.
    pub fn report(&self, pattern: &str, base_path: &str) -> (r: String)
        ensures
            r@ == grep_output(pattern@, base_path@, self.found(), self.matches(), self.files()),
    {
        let text = self.text(pattern, base_path);
        let t = truncate_output(text.as_str());
        let mut out = t.output;
        proof { reveal_strlit("\n["); reveal_strlit(" matches across "); reveal_strlit(" files]"); }
        push_str(&mut out, "\n[");
        push_dec(&mut out, self.match_count as u64);
        push_str(&mut out, " matches across ");
        push_dec(&mut out, self.file_count as u64);
        push_str(&mut out, " files]");
        out
    }
}

/// The report of one matching line.
fn report_line(display: &str, number: usize, line: &str) -> (r: String)
    ensures
        r@ == match_line(display@, number as nat, line@),
{
    let mut r = String::new();
    proof { reveal_strlit(":"); reveal_strlit("\t"); }
    push_str(&mut r, display);
    push_str(&mut r, ":");
    push_dec(&mut r, number as u64);
    push_str(&mut r, "\t");
    let cs = to_chars(line);
    let t = trim_end_chars(cs.as_slice());
    let ts = from_chars(t.as_slice());
    push_str(&mut r, ts.as_str());
    r
}

/// The text of a grep report before it is cut down.
pub open spec fn grep_text(pattern: Seq<char>, base: Seq<char>, found: Seq<Seq<char>>) -> Seq<char> {
    if found.len() == 0 {
        "No matches for '"@ + pattern + "' in "@ + base
    } else {
        join_nl(found)
    }
}

/// A grep report: the text cut down, then the counts.
pub open spec fn grep_output(
    pattern: Seq<char>,
    base: Seq<char>,
    found: Seq<Seq<char>>,
    matches: nat,
    files: nat,
) -> Seq<char> {
    truncated_text(grep_text(pattern, base, found)) + "\n["@ + dec(matches) + " matches across "@
        + dec(files) + " files]"@
}

// ---------------------------------------------------------------------
// find
// ---------------------------------------------------------------------

/// A found path as `find` shows it: relative to the base when it starts
/// with the base, without leading slashes.
pub open spec fn relative_path(base: Seq<char>, path: Seq<char>) -> Seq<char> {
    trim_start_char(if has_prefix(path, base) { path.skip(base.len() as int) } else { path }, '/')
}

/// The path as `find` shows it.
pub fn find_relative(base: &str, path: &str) -> (r: String)
    ensures
        r@ == relative_path(base@, path@),
{
    let p = to_chars(path);
    let b = to_chars(base);
    let mut from: usize = 0;
    if b.len() <= p.len() {
        let mut i: usize = 0;
        while i < b.len() && p[i] == b[i]
            invariant
                i <= b.len() <= p.len(),
                p@ == path@,
                b@ == base@,
                forall|k: int| 0 <= k < i ==> p@[k] == b@[k],
            decreases b.len() - i,
        {
            i = i + 1;
        }
        if i == b.len() {
            assert(p@.take(b.len() as int) =~= b@);
            from = b.len();
        } else {
            assert(p@.take(b.len() as int)[i as int] != b@[i as int]);
        }
    }
    proof {
        if from == 0 {
            assert(p@.skip(0) =~= p@);
        }
    }
    let r = trim_start_char_from(p.as_slice(), from, '/');
    from_chars(r.as_slice())
}

/// The texts are in text order.
pub open spec fn texts_sorted(s: Seq<Seq<char>>) -> bool {
    forall|i: int, j: int| 0 <= i < j < s.len() ==> !lex_lt(#[trigger] s[j], #[trigger] s[i])
}

/// Sorts strings into text order (the order of `str`'s `Ord`).
pub fn sort_texts(items: Vec<String>) -> (r: Vec<String>)
    ensures
        texts_sorted(strs_view(r@)),
        strs_view(r@).to_multiset() == strs_view(items@).to_multiset(),
{
    let ghost input = strs_view(items@);
    let mut rest = items;
    let mut out: Vec<String> = Vec::new();
    let mut taken: usize = 0;
    proof {
        assert(input.subrange(0, 0) =~= Seq::<Seq<char>>::empty());
        assert(strs_view(out@) =~= Seq::<Seq<char>>::empty());
    }
    let n0 = rest.len();
    assert(input.len() == n0);
    while rest.len() > 0
        invariant
            input.len() <= usize::MAX,
            taken + rest@.len() == input.len(),
            strs_view(rest@) == input.subrange(taken as int, input.len() as int),
            texts_sorted(strs_view(out@)),
            strs_view(out@).to_multiset() == input.subrange(0, taken as int).to_multiset(),
        decreases rest@.len(),
    {
        let ghost r0 = rest@;
        let e = rest.remove(0);
        assert(strs_view(r0)[0] == e@);
        assert(e@ == input[taken as int]);
        assert(rest@ =~= r0.subrange(1, r0.len() as int));
        assert(strs_view(rest@) =~= strs_view(r0).subrange(1, r0.len() as int));
        assert(strs_view(rest@) =~= input.subrange(taken + 1, input.len() as int));
        let ghost ov = strs_view(out@);
        let mut p: usize = 0;
        while p < out.len() && !text_before(e.as_str(), out[p].as_str())
            invariant
                p <= out.len(),
                ov == strs_view(out@),
                forall|k: int| 0 <= k < p ==> !lex_lt(e@, #[trigger] ov[k]),
            decreases out.len() - p,
        {
            p = p + 1;
        }
        let ghost before = strs_view(out@);
        out.insert(p, e);
        proof {
            let now = strs_view(out@);
            assert(now =~= before.insert(p as int, e@));
            assert forall|i: int, j: int| 0 <= i < j < now.len() implies !lex_lt(#[trigger] now[j], #[trigger] now[i]) by {
                if j < p {
                    assert(now[i] == before[i] && now[j] == before[j]);
                } else if j == p {
                    assert(now[i] == before[i]);
                } else if i == p {
                    assert(now[j] == before[j - 1]);
                    if lex_lt(now[j], e@) {
                        assert(p < before.len());
                        assert(lex_lt(e@, before[p as int]));
                        lemma_lex_transitive(before[j - 1], e@, before[p as int]);
                        if j - 1 == p {
                            lemma_lex_irreflexive(before[p as int]);
                        }
                    }
                } else if i < p {
                    assert(now[i] == before[i] && now[j] == before[j - 1]);
                } else {
                    assert(now[i] == before[i - 1] && now[j] == before[j - 1]);
                }
            }
            broadcast use vstd::seq_lib::group_to_multiset_ensures;
            assert(now.remove(p as int) =~= before);
            assert(now[p as int] == e@);
            assert(now.contains(e@));
            let m = now.to_multiset();
            assert(before.to_multiset() =~= m.remove(e@));
            assert(m =~= before.to_multiset().insert(e@));
            assert(input.subrange(0, taken + 1) =~= input.subrange(0, taken as int).push(e@));
        }
        taken = taken + 1;
    }
    assert(input.subrange(0, input.len() as int) =~= input);
    out
}

/// The text of a find report before it is cut down.
pub open spec fn find_text(pattern: Seq<char>, base: Seq<char>, sorted: Seq<Seq<char>>) -> Seq<char> {
    if sorted.len() == 0 {
        "No files matching '"@ + pattern + "' found in "@ + base
    } else {
        join_nl(sorted)
    }
}

/// A find report: the sorted paths (or a note that there are none), cut
/// down like any tool output, with the number of paths when it was cut.
pub open spec fn find_output(pattern: Seq<char>, base: Seq<char>, sorted: Seq<Seq<char>>) -> Seq<char> {
    let text = find_text(pattern, base, sorted);
    truncated_text(text) + (if needs_truncation(text) {
        "\n[showing partial results, "@ + dec(sorted.len()) + " total matches]"@
    } else {
        Seq::empty()
    })
}

/// The text of a find report before it is cut down.
pub fn find_listing(pattern: &str, base_path: &str, sorted: &[String]) -> (r: String)
    ensures
        r@ == find_text(pattern@, base_path@, strs_view(sorted@)),
{
    let mut text = String::new();
    proof { reveal_strlit("No files matching '"); reveal_strlit("' found in "); }
    if sorted.len() == 0 {
        push_str(&mut text, "No files matching '");
        push_str(&mut text, pattern);
        push_str(&mut text, "' found in ");
        push_str(&mut text, base_path);
    } else {
        text = join_lines(sorted);
    }
    assert(text@ =~= find_text(pattern@, base_path@, strs_view(sorted@)));
    text
}

/// The report of a search of `base_path` for names matching `pattern` that
/// found `paths` (as `find` shows them, in any order).
pub fn find_report(pattern: &str, base_path: &str, paths: Vec<String>) -> (r: String)
    ensures
        exists|s: Seq<Seq<char>>| {
            &&& texts_sorted(s)
            &&& s.to_multiset() == strs_view(paths@).to_multiset()
            &&& r@ == find_output(pattern@, base_path@, s)
        },
{
    let sorted = sort_texts(paths);
    let ghost sv = strs_view(sorted@);
    let text = find_listing(pattern, base_path, sorted.as_slice());
    let t = truncate_output(text.as_str());
    let mut out = t.output;
    if t.truncated {
        proof { reveal_strlit("\n[showing partial results, "); reveal_strlit(" total matches]"); }
        push_str(&mut out, "\n[showing partial results, ");
        push_dec(&mut out, sorted.len() as u64);
        push_str(&mut out, " total matches]");
    }
    assert(out@ =~= find_output(pattern@, base_path@, sv));
    out
}

} // verus!
