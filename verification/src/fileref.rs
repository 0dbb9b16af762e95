//! `@file` references in user messages: finding them, and folding the
//! referenced files into the message (text inline, images as base64).

use base64::Engine;
use vstd::prelude::*;
use crate::config::path_join;
use crate::lsp::detect_image_mime;
use crate::paths::{lowercase, path_extension};
use crate::text::{dec, from_chars, has_prefix, occurs_at, push_dec, push_str, starts_with_at, strs_view, sub_chars, to_chars, trim, trim_chars};

verus! {

/// A referenced file as it goes to the model.
#[derive(Debug, Clone)]
pub struct FileRef {
    pub path: String,
    pub content: String,
    pub is_binary: bool,
    /// For an image: its MIME type and base64 data.
    pub image: Option<ImageData>,
}

/// The data of a referenced image.
#[derive(Debug, Clone)]
pub struct ImageData {
    pub mime_type: String,
    pub base64: String,
}

/// The largest image, in bytes, that is sent.
pub const MAX_IMAGE_BYTES: usize = 1024 * 1024;

/// How many leading bytes are checked for a NUL byte.
pub const BINARY_CHECK_BYTES: usize = 8192;

/// The pattern of a file reference: `@` and a path, or a bare file name
/// with an extension.
pub const REF_PATTERN: &'static str = r"@(\.{0,2}/[^\s,;)]+|@[^\s,;)]+|[a-zA-Z0-9_./-]+\.[a-zA-Z0-9]+)";

/// The texts that the reference pattern matches in a message, in order.
pub uninterp spec fn ref_pattern_matches(message: Seq<char>) -> Seq<Seq<char>>;

/// Every match of the reference pattern in `message`, left to right
/// (`regex::Regex::captures_iter`, whole matches).
#[verifier::external_body]
fn find_ref_matches(message: &str) -> (r: Vec<String>)
    ensures
        strs_view(r@) == ref_pattern_matches(message@),
{
    let re = regex::Regex::new(REF_PATTERN).unwrap();
    re.captures_iter(message).map(|c| c[0].to_string()).collect()
}

/// What `pathdiff::diff_paths(path, base)` gives.
pub uninterp spec fn relative_path(path: Seq<char>, base: Seq<char>) -> Option<Seq<char>>;

/// `path` relative to `base` (`pathdiff::diff_paths`), when it can be
/// expressed so.
#[verifier::external_body]
fn diff_paths(path: &str, base: &str) -> (r: Option<String>)
    ensures
        match r {
            Some(p) => relative_path(path@, base@) == Some(p@),
            None => relative_path(path@, base@) is None,
        },
{
    pathdiff::diff_paths(path, base).map(|p| p.to_string_lossy().into_owned())
}

/// The character of the standard base64 alphabet for a six-bit value.
pub open spec fn base64_char(v: int) -> char {
    "ABCDEFGHIJKLMNOPQRSTUVWXYZabcdefghijklmnopqrstuvwxyz0123456789+/"@[v]
}

/// The standard base64 encoding, with padding: each group of three bytes
/// becomes four characters of six bits each, most significant first; a last
/// group of one or two bytes is filled with zero bits and padded with `=`.
pub open spec fn base64_standard(b: Seq<u8>) -> Seq<char>
    decreases b.len(),
{
    if b.len() == 0 {
        Seq::empty()
    } else if b.len() == 1 {
        let x = b[0] as int;
        seq![base64_char(x / 4), base64_char((x % 4) * 16), '=', '=']
    } else if b.len() == 2 {
        let (x, y) = (b[0] as int, b[1] as int);
        seq![base64_char(x / 4), base64_char((x % 4) * 16 + y / 16), base64_char((y % 16) * 4), '=']
    } else {
        let (x, y, z) = (b[0] as int, b[1] as int, b[2] as int);
        seq![base64_char(x / 4), base64_char((x % 4) * 16 + y / 16), base64_char((y % 16) * 4 + z / 64),
            base64_char(z % 64)] + base64_standard(b.skip(3))
    }
}

/// The length of the padded base64 encoding of `n` bytes.
pub open spec fn base64_len(n: nat) -> nat {
    if n % 3 == 0 { (n / 3) * 4 } else { (n / 3) * 4 + 4 }
}

/// Encodes bytes as standard base64 with padding
/// (`base64::engine::general_purpose::STANDARD.encode`): four characters
/// for each three bytes begun.
#[verifier::external_body]
fn base64_encode(data: &[u8]) -> (r: String)
    requires
        base64_len(data@.len()) <= usize::MAX,
    ensures
        r@ == base64_standard(data@),
        r@.len() == base64_len(data@.len()),
{
    base64::engine::general_purpose::STANDARD.encode(data)
}

/// A text is taken for binary when one of its first 8192 bytes is NUL.
pub open spec fn binary_bytes(b: Seq<u8>) -> bool {
    exists|i: int| 0 <= i < b.len() && i < BINARY_CHECK_BYTES && b[i] == 0
}

/// Whether the text of a file looks binary.
pub fn is_binary_content(content: &str) -> (r: bool)
    ensures
        r == binary_bytes(vstd::utf8::encode_utf8(content@)),
{
    let b = content.as_bytes();
    let n = if b.len() < BINARY_CHECK_BYTES { b.len() } else { BINARY_CHECK_BYTES };
    let mut i: usize = 0;
    while i < n
        invariant
            i <= n,
            n <= b@.len(),
            n == (if b@.len() < BINARY_CHECK_BYTES { b@.len() } else { BINARY_CHECK_BYTES as nat }),
            b@ == vstd::utf8::encode_utf8(content@),
            forall|k: int| 0 <= k < i ==> b@[k] != 0,
        decreases n - i,
    {
        if b[i] == 0 {
            return true;
        }
        i = i + 1;
    }
    false
}

// ---------------------------------------------------------------------------
// Candidates
// ---------------------------------------------------------------------------

/// A reference found in a message: the whole match, the path after the
/// `@`, and that path resolved against the working directory.
#[derive(Debug, Clone)]
pub struct RefCandidate {
    pub full: String,
    pub file_path: String,
    pub resolved: String,
}

/// A match is not a file reference when what follows its first character
/// starts with `@` or `{`, or contains `://`.
pub open spec fn skipped_ref(file_path: Seq<char>) -> bool {
    has_prefix(file_path, "@"@) || (exists|i: int| occurs_at(file_path, "://"@, i)) || has_prefix(file_path, "{"@)
}

/// A path resolved against the working directory: absolute paths stay.
pub open spec fn resolve_path(file_path: Seq<char>, cwd: Seq<char>) -> Seq<char> {
    if has_prefix(file_path, "/"@) {
        file_path
    } else {
        path_join(cwd, file_path)
    }
}

/// The candidate references among the pattern's matches, in order.
pub open spec fn candidates_of(matches: Seq<Seq<char>>, cwd: Seq<char>) -> Seq<(Seq<char>, Seq<char>, Seq<char>)>
    decreases matches.len(),
{
    if matches.len() == 0 {
        Seq::empty()
    } else {
        let prev = candidates_of(matches.drop_last(), cwd);
        let full = matches.last();
        let fp = full.drop_first();
        if full.len() == 0 || skipped_ref(fp) {
            prev
        } else {
            prev.push((full, fp, resolve_path(fp, cwd)))
        }
    }
}

/// The views of candidates.
pub open spec fn candidates_view(v: Seq<RefCandidate>) -> Seq<(Seq<char>, Seq<char>, Seq<char>)> {
    Seq::new(v.len(), |i: int| (v[i].full@, v[i].file_path@, v[i].resolved@))
}

fn contains_str(s: &[char], p: &str) -> (r: bool)
    ensures
        r == exists|i: int| occurs_at(s@, p@, i),
{
    crate::text::find_pattern(s, p).is_some()
}

/// The file references of a message, resolved against `cwd`.
pub fn ref_candidates(message: &str, cwd: &str) -> (r: Vec<RefCandidate>)
    ensures
        candidates_view(r@) == candidates_of(ref_pattern_matches(message@), cwd@),
{
    proof {
        reveal_strlit("@");
        reveal_strlit("{");
        reveal_strlit("/");
    }
    let ms = find_ref_matches(message);
    let ghost mv = strs_view(ms@);
    let mut out: Vec<RefCandidate> = Vec::new();
    let mut i: usize = 0;
    while i < ms.len()
        invariant
            i <= ms@.len(),
            mv == strs_view(ms@),
            mv == ref_pattern_matches(message@),
            candidates_view(out@) == candidates_of(mv.take(i as int), cwd@),
        decreases ms.len() - i,
    {
        proof {
            reveal_strlit("@");
            reveal_strlit("{");
            reveal_strlit("/");
        }
        assert(mv.take(i + 1).drop_last() =~= mv.take(i as int));
        assert(mv.take(i + 1).last() == ms@[i as int]@);
        let cs = to_chars(ms[i].as_str());
        if cs.len() > 0 {
            let fp = sub_chars(cs.as_slice(), 1, cs.len());
            assert(fp@ =~= cs@.drop_first());
            assert(fp@.skip(0) =~= fp@);
            let skip = starts_with_at(fp.as_slice(), 0, "@") || contains_str(fp.as_slice(), "://")
                || starts_with_at(fp.as_slice(), 0, "{");
            if !skip {
                let fps = from_chars(fp.as_slice());
                let resolved = if starts_with_at(fp.as_slice(), 0, "/") {
                    fps.clone()
                } else {
                    crate::config::join_path(cwd, fps.as_str())
                };
                let c = RefCandidate { full: ms[i].clone(), file_path: fps, resolved };
                let ghost before = out@;
                out.push(c);
                assert(candidates_view(out@) =~= candidates_view(before).push((c.full@, c.file_path@, c.resolved@)));
            }
        }
        i = i + 1;
    }
    assert(mv.take(mv.len() as int) =~= mv);
    out
}

// ---------------------------------------------------------------------------
// Folding files into the message
// ---------------------------------------------------------------------------

/// What was found on disk for a candidate.
#[derive(Debug, Clone)]
pub struct RefProbe {
    /// The path names an existing regular file.
    pub is_file: bool,
    /// For a file with an image extension: its bytes, if they could be read.
    pub image_bytes: Option<Vec<u8>>,
    /// Its text, if it could be read as UTF-8 (looked at only when it is
    /// not a readable image).
    pub text: Option<String>,
}

/// `s` with every occurrence of `p` (not empty) removed, left to right
/// (`str::replace(p, "")`).
pub open spec fn remove_all(s: Seq<char>, p: Seq<char>) -> Seq<char>
    decreases s.len(),
{
    if p.len() == 0 || s.len() == 0 {
        s
    } else if has_prefix(s, p) {
        remove_all(s.skip(p.len() as int), p)
    } else {
        seq![s[0]] + remove_all(s.drop_first(), p)
    }
}

fn remove_all_exec(s: &str, p: &str) -> (r: String)
    ensures
        r@ == remove_all(s@, p@),
{
    let cs = to_chars(s);
    let pc = to_chars(p);
    if pc.len() == 0 {
        return s.to_owned();
    }
    let n = cs.len();
    let mut r = String::new();
    let mut i: usize = 0;
    assert(cs@.skip(0) =~= cs@);
    while i < n
        invariant
            i <= n,
            n == cs@.len(),
            cs@ == s@,
            pc@ == p@,
            pc@.len() > 0,
            r@ + remove_all(cs@.skip(i as int), p@) == remove_all(s@, p@),
        decreases n - i,
    {
        let ghost t = cs@.skip(i as int);
        if pc.len() <= n - i && starts_with_at(cs.as_slice(), i, p) {
            assert(t.skip(p@.len() as int) =~= cs@.skip(i + p@.len()));
            i = i + pc.len();
        } else {
            let ghost before = r@;
            crate::text::push_char(&mut r, cs[i]);
            assert(t.drop_first() =~= cs@.skip(i + 1));
            assert(t[0] == cs@[i as int]);
            assert(r@ + remove_all(cs@.skip(i + 1), p@) =~= before + (seq![t[0]] + remove_all(t.drop_first(), p@)));
            i = i + 1;
        }
    }
    assert(cs@.skip(n as int) =~= Seq::<char>::empty());
    assert(r@ + Seq::<char>::empty() =~= r@);
    r
}

/// The text of an image reference that is sent.
pub open spec fn image_note(file_path: Seq<char>, n: nat) -> Seq<char> {
    "[image: "@ + file_path + " ("@ + dec(n) + " bytes)]"@
}

/// The text of an image reference that is too large to send.
pub open spec fn large_image_note(file_path: Seq<char>, n: nat) -> Seq<char> {
    "[image too large: "@ + file_path + " ("@ + dec(n) + " bytes, max "@ + dec(MAX_IMAGE_BYTES as nat)
        + " bytes)]"@
}

/// The text of a binary file reference.
pub open spec fn binary_note(file_path: Seq<char>, n: nat) -> Seq<char> {
    "[binary file: "@ + file_path + " ("@ + dec(n) + " bytes)]"@
}

/// A referenced text file in the message.
pub open spec fn inline_file(path: Seq<char>, content: Seq<char>) -> Seq<char> {
    "--- "@ + path + " ---\n"@ + content + "\n--- end of "@ + path + " ---"@
}

/// The message sent: the inlined text files (images go separately),
/// separated by blank lines, then the rest of the user's text, trimmed.
pub open spec fn final_message(cleaned: Seq<char>, inlined: Seq<Seq<char>>, any_ref: bool) -> Seq<char> {
    let user = trim(cleaned);
    if !any_ref {
        user
    } else {
        let ctx = join_sep(inlined, "\n\n"@);
        if ctx.len() == 0 {
            user
        } else if user.len() == 0 {
            ctx
        } else {
            ctx + "\n\n"@ + user
        }
    }
}

/// Texts joined with a separator.
pub open spec fn join_sep(ps: Seq<Seq<char>>, sep: Seq<char>) -> Seq<char>
    decreases ps.len(),
{
    if ps.len() == 0 {
        Seq::empty()
    } else if ps.len() == 1 {
        ps[0]
    } else {
        join_sep(ps.drop_last(), sep) + sep + ps.last()
    }
}

fn join_blank(parts: &Vec<String>) -> (r: String)
    ensures
        r@ == join_sep(strs_view(parts@), "\n\n"@),
{
    let ghost ps = strs_view(parts@);
    let mut s = String::new();
    let mut i: usize = 0;
    while i < parts.len()
        invariant
            i <= parts@.len(),
            ps == strs_view(parts@),
            s@ == join_sep(ps.take(i as int), "\n\n"@),
        decreases parts.len() - i,
    {
        assert(ps.take(i + 1).drop_last() =~= ps.take(i as int));
        assert(ps.take(i + 1).last() == parts@[i as int]@);
        if i > 0 {
            push_str(&mut s, "\n\n");
        } else {
            assert(s@ =~= Seq::<char>::empty());
            assert(ps.take(1)[0] == parts@[0]@);
        }
        push_str(&mut s, parts[i].as_str());
        i = i + 1;
    }
    assert(ps.take(ps.len() as int) =~= ps);
    s
}

fn note(prefix: &str, file_path: &str, n: usize, tail: &str) -> (r: String)
    ensures
        r@ == prefix@ + file_path@ + " ("@ + dec(n as nat) + tail@,
{
    let mut s = String::new();
    push_str(&mut s, prefix);
    push_str(&mut s, file_path);
    push_str(&mut s, " (");
    push_dec(&mut s, n as u64);
    push_str(&mut s, tail);
    s
}

/// A probe as values.
pub open spec fn probe_view(p: RefProbe) -> (bool, Option<Seq<u8>>, Option<Seq<char>>) {
    (
        p.is_file,
        match p.image_bytes {
            Some(b) => Some(b@),
            None => None,
        },
        match p.text {
            Some(t) => Some(t@),
            None => None,
        },
    )
}

/// A reference as values: path, content, binary flag, and the image's
/// MIME type and data.
pub open spec fn file_ref_view(f: FileRef) -> (Seq<char>, Seq<char>, bool, Option<(Seq<char>, Seq<char>)>) {
    (
        f.path@,
        f.content@,
        f.is_binary,
        match f.image {
            Some(d) => Some((d.mime_type@, d.base64@)),
            None => None,
        },
    )
}

/// The MIME type of an image path, by its extension in any case.
pub open spec fn image_mime_of(path: Seq<char>) -> Option<Seq<char>> {
    match path_extension(path) {
        Some(e) => crate::lsp::image_mime(lowercase(e)),
        None => None,
    }
}

/// The path shown for a referenced file: relative to the working
/// directory when it can be, else as resolved.
pub open spec fn display_path(resolved: Seq<char>, cwd: Seq<char>) -> Seq<char> {
    match relative_path(resolved, cwd) {
        Some(d) => d,
        None => resolved,
    }
}

/// What one candidate adds: the reference it yields, if any. A readable
/// image is sent as base64 unless it is over the size limit; otherwise a
/// readable text is inlined, or noted as binary.
pub open spec fn ref_of(
    c: (Seq<char>, Seq<char>, Seq<char>),
    p: (bool, Option<Seq<u8>>, Option<Seq<char>>),
    cwd: Seq<char>,
) -> Option<(Seq<char>, Seq<char>, bool, Option<(Seq<char>, Seq<char>)>)> {
    let (full, fp, resolved) = c;
    let display = display_path(resolved, cwd);
    if !p.0 {
        None
    } else if image_mime_of(resolved) is Some && p.1 is Some {
        let b = p.1->0;
        if b.len() > MAX_IMAGE_BYTES {
            Some((display, large_image_note(fp, b.len()), true, None))
        } else {
            Some((display, image_note(fp, b.len()), true, Some((image_mime_of(resolved)->0, base64_standard(b)))))
        }
    } else if p.2 is Some {
        let t = p.2->0;
        if binary_bytes(vstd::utf8::encode_utf8(t)) {
            Some((display, binary_note(fp, crate::text::utf8_len(t)), true, None))
        } else {
            Some((display, t, false, None))
        }
    } else {
        None
    }
}

/// The message with the matches of the used references removed, and the
/// references, after the candidates in order.
pub open spec fn fold_refs(
    message: Seq<char>,
    cs: Seq<(Seq<char>, Seq<char>, Seq<char>)>,
    ps: Seq<(bool, Option<Seq<u8>>, Option<Seq<char>>)>,
    cwd: Seq<char>,
) -> (Seq<char>, Seq<(Seq<char>, Seq<char>, bool, Option<(Seq<char>, Seq<char>)>)>)
    decreases cs.len(),
{
    if cs.len() == 0 || ps.len() == 0 {
        (message, Seq::empty())
    } else {
        let (cleaned, refs) = fold_refs(message, cs.drop_last(), ps.drop_last(), cwd);
        match ref_of(cs.last(), ps.last(), cwd) {
            Some(r) => (remove_all(cleaned, cs.last().0), refs.push(r)),
            None => (cleaned, refs),
        }
    }
}

/// The inlined text of the references that are not images, in order.
pub open spec fn inlined_refs(refs: Seq<(Seq<char>, Seq<char>, bool, Option<(Seq<char>, Seq<char>)>)>) -> Seq<Seq<char>>
    decreases refs.len(),
{
    if refs.len() == 0 {
        Seq::empty()
    } else {
        let prev = inlined_refs(refs.drop_last());
        if refs.last().3 is None {
            prev.push(inline_file(refs.last().0, refs.last().1))
        } else {
            prev
        }
    }
}

/// The views of references.
pub open spec fn refs_view(v: Seq<FileRef>) -> Seq<(Seq<char>, Seq<char>, bool, Option<(Seq<char>, Seq<char>)>)> {
    Seq::new(v.len(), |i: int| file_ref_view(v[i]))
}

/// The views of probes.
pub open spec fn probes_view(v: Seq<RefProbe>) -> Seq<(bool, Option<Seq<u8>>, Option<Seq<char>>)> {
    Seq::new(v.len(), |i: int| probe_view(v[i]))
}

fn ref_for(c: &RefCandidate, p: &RefProbe, cwd: &str) -> (r: Option<FileRef>)
    ensures
        match r {
            Some(f) => ref_of((c.full@, c.file_path@, c.resolved@), probe_view(*p), cwd@) == Some(file_ref_view(f)),
            None => ref_of((c.full@, c.file_path@, c.resolved@), probe_view(*p), cwd@) is None,
        },
{
    if !p.is_file {
        return None;
    }
    let display = match diff_paths(c.resolved.as_str(), cwd) {
        Some(d) => d,
        None => c.resolved.clone(),
    };
    let mime = detect_image_mime(c.resolved.as_str());
    match (mime, &p.image_bytes) {
        (Some(m), Some(bytes)) => {
            let n = bytes.len();
            if n > MAX_IMAGE_BYTES {
                let mut content = note("[image too large: ", c.file_path.as_str(), n, " bytes, max ");
                push_dec(&mut content, MAX_IMAGE_BYTES as u64);
                push_str(&mut content, " bytes)]");
                Some(FileRef { path: display, content, is_binary: true, image: None })
            } else {
                let content = note("[image: ", c.file_path.as_str(), n, " bytes)]");
                assert(base64_len(n as nat) <= usize::MAX) by {
                    assert(n as nat / 3 <= 349526);
                }
                let data = base64_encode(bytes.as_slice());
                Some(
                    FileRef {
                        path: display,
                        content,
                        is_binary: true,
                        image: Some(ImageData { mime_type: m.to_owned(), base64: data }),
                    },
                )
            }
        },
        _ => match &p.text {
            Some(text) => {
                if is_binary_content(text.as_str()) {
                    let n = crate::text::byte_len(text.as_str());
                    let content = note("[binary file: ", c.file_path.as_str(), n, " bytes)]");
                    Some(FileRef { path: display, content, is_binary: true, image: None })
                } else {
                    Some(FileRef { path: display, content: text.clone(), is_binary: false, image: None })
                }
            },
            None => None,
        },
    }
}

/// Folds the referenced files into the message: each candidate whose
/// probe shows a readable file becomes a reference and its match is
/// removed from the message; the message is then assembled. `probes[i]`
/// tells what was found on disk for `candidates[i]`.
pub fn fold_file_refs(message: &str, cwd: &str, candidates: &Vec<RefCandidate>, probes: &Vec<RefProbe>) -> (r: (
    String,
    Vec<FileRef>,
))
    requires
        candidates@.len() == probes@.len(),
    ensures
        refs_view(r.1@) == fold_refs(message@, candidates_view(candidates@), probes_view(probes@), cwd@).1,
        r.0@ == final_message(
            fold_refs(message@, candidates_view(candidates@), probes_view(probes@), cwd@).0,
            inlined_refs(refs_view(r.1@)),
            r.1@.len() > 0,
        ),
{
    let ghost cv = candidates_view(candidates@);
    let ghost pv = probes_view(probes@);
    let mut cleaned = message.to_owned();
    let mut refs: Vec<FileRef> = Vec::new();
    let mut i: usize = 0;
    while i < candidates.len()
        invariant
            i <= candidates@.len(),
            candidates@.len() == probes@.len(),
            cv == candidates_view(candidates@),
            pv == probes_view(probes@),
            (cleaned@, refs_view(refs@)) == fold_refs(message@, cv.take(i as int), pv.take(i as int), cwd@),
        decreases candidates.len() - i,
    {
        assert(cv.take(i + 1).drop_last() =~= cv.take(i as int));
        assert(pv.take(i + 1).drop_last() =~= pv.take(i as int));
        assert(cv.take(i + 1).last() == cv[i as int]);
        assert(pv.take(i + 1).last() == pv[i as int]);
        match ref_for(&candidates[i], &probes[i], cwd) {
            Some(f) => {
                let ghost before = refs@;
                refs.push(f);
                assert(refs_view(refs@) =~= refs_view(before).push(file_ref_view(f)));
                cleaned = remove_all_exec(cleaned.as_str(), candidates[i].full.as_str());
            },
            None => {},
        }
        i = i + 1;
    }
    assert(cv.take(cv.len() as int) =~= cv);
    assert(pv.take(pv.len() as int) =~= pv);
    let cl = to_chars(cleaned.as_str());
    let user = from_chars(trim_chars(cl.as_slice(), 0, cl.len()).as_slice());
    assert(cl@.subrange(0, cl@.len() as int) =~= cl@);
    if refs.len() == 0 {
        return (user, refs);
    }
    let ghost rv = refs_view(refs@);
    let mut parts: Vec<String> = Vec::new();
    let mut k: usize = 0;
    while k < refs.len()
        invariant
            k <= refs@.len(),
            rv == refs_view(refs@),
            strs_view(parts@) == inlined_refs(rv.take(k as int)),
        decreases refs.len() - k,
    {
        let f = &refs[k];
        assert(rv.take(k + 1).drop_last() =~= rv.take(k as int));
        assert(rv.take(k + 1).last() == file_ref_view(*f));
        if f.image.is_none() {
            let mut s = String::new();
            push_str(&mut s, "--- ");
            push_str(&mut s, f.path.as_str());
            push_str(&mut s, " ---\n");
            push_str(&mut s, f.content.as_str());
            push_str(&mut s, "\n--- end of ");
            push_str(&mut s, f.path.as_str());
            push_str(&mut s, " ---");
            let ghost before = parts@;
            parts.push(s);
            assert(strs_view(parts@) =~= strs_view(before).push(s@));
        }
        k = k + 1;
    }
    assert(rv.take(rv.len() as int) =~= rv);
    let ctx = join_blank(&parts);
    let msg = if ctx.as_str().is_empty() {
        user
    } else if user.as_str().is_empty() {
        ctx
    } else {
        let mut m = ctx;
        push_str(&mut m, "\n\n");
        push_str(&mut m, user.as_str());
        m
    };
    (msg, refs)
}

} // verus!
