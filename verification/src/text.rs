//! Character-level text helpers shared by the rest of the library.
//!
//! Text is handled as sequences of Unicode scalar values (`Seq<char>`), which
//! is also the view that vstd gives to `str` and `String`.

use vstd::prelude::*;
use vstd::utf8::{encode_utf8, encode_scalar, char_is_scalar};

verus! {

/// Appends one character to a string (`String::push`).
#[verifier::external_body]
pub fn push_char(s: &mut String, c: char)
    ensures
        final(s)@ == old(s)@.push(c),
{
    s.push(c);
}

/// Appends a string slice to a string (`String::push_str`).
#[verifier::external_body]
pub fn push_str(s: &mut String, t: &str)
    ensures
        final(s)@ == old(s)@ + t@,
{
    s.push_str(t);
}

/// Compares two string slices (`<str as PartialEq>::eq`).
#[verifier::external_body]
pub fn str_eq(a: &str, b: &str) -> (r: bool)
    ensures
        r == (a@ == b@),
{
    a == b
}

/// The views of a sequence of strings.
pub open spec fn strs_view(v: Seq<String>) -> Seq<Seq<char>> {
    Seq::new(v.len(), |i: int| v[i]@)
}

/// The views of a sequence of string slices.
pub open spec fn slices_view(v: Seq<&str>) -> Seq<Seq<char>> {
    Seq::new(v.len(), |i: int| v[i]@)
}

/// The characters of a string slice, in order.
pub fn to_chars(s: &str) -> (v: Vec<char>)
    ensures
        v@ == s@,
{
    let mut v: Vec<char> = Vec::new();
    for c in it: s.chars()
        invariant
            v@ == it.seq().take(it.index() as int),
    {
        assert(it.seq().take(it.index() + 1) == it.seq().take(it.index() as int).push(c));
        v.push(c);
    }
    v
}

/// A string holding the given characters.
pub fn from_chars(v: &[char]) -> (s: String)
    ensures
        s@ == v@,
{
    let mut s = String::new();
    let mut i: usize = 0;
    while i < v.len()
        invariant
            i <= v.len(),
            s@ == v@.take(i as int),
        decreases v.len() - i,
    {
        assert(v@.take(i + 1) == v@.take(i as int).push(v@[i as int]));
        push_char(&mut s, v[i]);
        i = i + 1;
    }
    assert(v@.take(v@.len() as int) == v@);
    s
}

/// A line as `str::lines` yields it: a `'\r'` before the ending `'\n'` is dropped.
pub open spec fn strip_cr(l: Seq<char>) -> Seq<char> {
    if l.len() > 0 && l.last() == '\r' {
        l.drop_last()
    } else {
        l
    }
}

/// Reading `s` from the left: the lines completed so far, and the
/// characters of the line that is still open.
pub open spec fn lines_acc(s: Seq<char>) -> (Seq<Seq<char>>, Seq<char>)
    decreases s.len(),
{
    if s.len() == 0 {
        (Seq::empty(), Seq::empty())
    } else {
        let prev = lines_acc(s.drop_last());
        if s.last() == '\n' {
            (prev.0.push(strip_cr(prev.1)), Seq::empty())
        } else {
            (prev.0, prev.1.push(s.last()))
        }
    }
}

/// The lines of `s` as `str::lines` yields them: split at `'\n'`, a `'\r'`
/// right before a `'\n'` removed, and no empty line after a final `'\n'`.
pub open spec fn spec_lines(s: Seq<char>) -> Seq<Seq<char>> {
    let a = lines_acc(s);
    if a.1.len() == 0 {
        a.0
    } else {
        a.0.push(a.1)
    }
}

/// The lines of a text, as `str::lines` yields them.
pub fn split_lines(text: &str) -> (lines: Vec<String>)
    ensures
        strs_view(lines@) == spec_lines(text@),
{
    let chars = to_chars(text);
    let mut lines: Vec<String> = Vec::new();
    let mut cur: Vec<char> = Vec::new();
    let mut i: usize = 0;
    while i < chars.len()
        invariant
            i <= chars.len(),
            chars@ == text@,
            strs_view(lines@) == lines_acc(chars@.take(i as int)).0,
            cur@ == lines_acc(chars@.take(i as int)).1,
        decreases chars.len() - i,
    {
        let c = chars[i];
        assert(chars@.take(i + 1).drop_last() == chars@.take(i as int));
        assert(chars@.take(i + 1).last() == c);
        if c == '\n' {
            if cur.len() > 0 && cur[cur.len() - 1] == '\r' {
                cur.pop();
            }
            let l = from_chars(cur.as_slice());
            let ghost before = lines@;
            lines.push(l);
            assert(strs_view(lines@) == strs_view(before).push(l@));
            cur = Vec::new();
        } else {
            cur.push(c);
        }
        i = i + 1;
    }
    assert(chars@.take(chars@.len() as int) == chars@);
    if cur.len() > 0 {
        let l = from_chars(cur.as_slice());
        let ghost before = lines@;
        lines.push(l);
        assert(strs_view(lines@) == strs_view(before).push(l@));
    }
    lines
}

/// The ASCII digit for a value below ten.
pub open spec fn digit_char(d: nat) -> char {
    if d == 0 { '0' } else if d == 1 { '1' } else if d == 2 { '2' } else if d == 3 { '3' }
    else if d == 4 { '4' } else if d == 5 { '5' } else if d == 6 { '6' } else if d == 7 { '7' }
    else if d == 8 { '8' } else { '9' }
}

/// The decimal notation of a natural number, without leading zeros.
pub open spec fn dec(n: nat) -> Seq<char>
    decreases n,
{
    if n < 10 {
        seq![digit_char(n)]
    } else {
        dec(n / 10).push(digit_char(n % 10))
    }
}

pub fn digit(d: usize) -> (c: char)
    requires
        d < 10,
    ensures
        c == digit_char(d as nat),
{
    if d == 0 { '0' } else if d == 1 { '1' } else if d == 2 { '2' } else if d == 3 { '3' }
    else if d == 4 { '4' } else if d == 5 { '5' } else if d == 6 { '6' } else if d == 7 { '7' }
    else if d == 8 { '8' } else { '9' }
}

/// Appends the decimal notation of `n`.
pub fn push_dec(s: &mut String, n: u64)
    ensures
        final(s)@ == old(s)@ + dec(n as nat),
    decreases n,
{
    if n < 10 {
        push_char(s, digit(n as usize));
    } else {
        push_dec(s, n / 10);
        push_char(s, digit((n % 10) as usize));
        assert(dec(n as nat) == dec((n / 10) as nat).push(digit_char((n % 10) as nat)));
    }
}

/// The decimal notation of `n`.
pub fn dec_string(n: u64) -> (s: String)
    ensures
        s@ == dec(n as nat),
{
    let mut s = String::new();
    push_dec(&mut s, n);
    assert(Seq::<char>::empty() + dec(n as nat) == dec(n as nat));
    s
}

/// `n` spaces.
pub open spec fn spaces(n: nat) -> Seq<char> {
    Seq::new(n, |i: int| ' ')
}

/// `s` right-aligned in a field of `width` characters, as `format!("{:>width$}", ..)` does.
pub open spec fn pad_left(s: Seq<char>, width: nat) -> Seq<char> {
    if s.len() < width {
        spaces((width - s.len()) as nat) + s
    } else {
        s
    }
}

/// Appends `n` spaces.
pub fn push_spaces(s: &mut String, n: usize)
    ensures
        final(s)@ == old(s)@ + spaces(n as nat),
{
    let mut i: usize = 0;
    while i < n
        invariant
            i <= n,
            s@ == old(s)@ + spaces(i as nat),
        decreases n - i,
    {
        push_char(s, ' ');
        assert(spaces((i + 1) as nat) == spaces(i as nat).push(' '));
        i = i + 1;
    }
}

/// The number of decimal digits of `n`.
pub fn dec_len(n: u64) -> (r: usize)
    ensures
        r == dec(n as nat).len(),
        1 <= r <= 20,
    decreases n,
{
    if n < 10 {
        1
    } else {
        let k = dec_len(n / 10);
        assert(dec(n as nat).len() == dec((n / 10) as nat).len() + 1);
        if k >= 20 {
            proof {
                lemma_dec_len_bound(n as nat);
            }
        }
        k + 1
    }
}

proof fn lemma_dec_len_bound(n: nat)
    requires
        n <= u64::MAX,
    ensures
        dec(n).len() <= 20,
{
    let p: nat = 10000000000000000000;
    reveal_with_fuel(pow10, 20);
    assert(pow10(19) == p);
    lemma_dec_len_pow(n, 19, p);
}

proof fn lemma_dec_len_pow(n: nat, k: nat, p: nat)
    requires
        n < p * 10,
        p == pow10(k),
    ensures
        dec(n).len() <= k + 1,
    decreases k,
{
    if n < 10 {
    } else {
        if k == 0 {
            assert(p == 1);
        } else {
            assert(pow10(k) == 10 * pow10((k - 1) as nat));
            assert(n / 10 < pow10((k - 1) as nat) * 10) by (nonlinear_arith)
                requires n < p * 10, p == 10 * pow10((k - 1) as nat);
            lemma_dec_len_pow(n / 10, (k - 1) as nat, pow10((k - 1) as nat));
        }
    }
}

/// Ten to the power `k`.
pub open spec fn pow10(k: nat) -> nat
    decreases k,
{
    if k == 0 {
        1
    } else {
        10 * pow10((k - 1) as nat)
    }
}

/// Appends `text` right-aligned in a field of `width` characters.
pub fn push_padded_dec(s: &mut String, n: u64, width: usize)
    ensures
        final(s)@ == old(s)@ + pad_left(dec(n as nat), width as nat),
{
    let len = dec_len(n);
    if len < width {
        push_spaces(s, width - len);
    }
    let ghost mid = s@;
    push_dec(s, n);
    assert(mid + dec(n as nat) == old(s)@ + pad_left(dec(n as nat), width as nat));
}

/// The number of bytes of the UTF-8 encoding of `c`.
pub open spec fn char_utf8_len(c: char) -> nat {
    if (c as u32) <= 0x7F {
        1
    } else if (c as u32) <= 0x7FF {
        2
    } else if (c as u32) <= 0xFFFF {
        3
    } else {
        4
    }
}

/// The number of bytes of the UTF-8 encoding of `s`.
pub open spec fn utf8_len(s: Seq<char>) -> nat
    decreases s.len(),
{
    if s.len() == 0 {
        0
    } else {
        utf8_len(s.drop_last()) + char_utf8_len(s.last())
    }
}

pub proof fn lemma_utf8_len_add(a: Seq<char>, b: Seq<char>)
    ensures
        utf8_len(a + b) == utf8_len(a) + utf8_len(b),
    decreases b.len(),
{
    if b.len() == 0 {
        assert(a + b =~= a);
    } else {
        assert((a + b).drop_last() =~= a + b.drop_last());
        lemma_utf8_len_add(a, b.drop_last());
    }
}

/// `utf8_len` is the length of vstd's UTF-8 encoding.
pub proof fn lemma_encode_utf8_len(s: Seq<char>)
    ensures
        encode_utf8(s).len() == utf8_len(s),
    decreases s.len(),
{
    if s.len() > 0 {
        lemma_encode_utf8_len(s.drop_first());
        let c = s[0];
        char_is_scalar(c);
        assert(encode_scalar(c as u32).len() == char_utf8_len(c));
        assert(s =~= seq![c] + s.drop_first());
        lemma_utf8_len_add(seq![c], s.drop_first());
        assert(utf8_len(seq![c]) == char_utf8_len(c)) by {
            assert(seq![c].drop_last() =~= Seq::<char>::empty());
            assert(seq![c].last() == c);
            assert(utf8_len(Seq::<char>::empty()) == 0);
        }
    }
}

/// The number of bytes of the UTF-8 encoding of `c`.
pub fn char_len_utf8(c: char) -> (n: usize)
    ensures
        n == char_utf8_len(c),
{
    let v = c as u32;
    if v <= 0x7F {
        1
    } else if v <= 0x7FF {
        2
    } else if v <= 0xFFFF {
        3
    } else {
        4
    }
}

/// The byte length of a string slice (`str::len`): the number of bytes of
/// its UTF-8 encoding, which fits in `usize` since the string is in memory.
#[verifier::external_body]
pub fn byte_len(s: &str) -> (n: usize)
    ensures
        n == utf8_len(s@),
{
    s.len()
}

/// `c` has the Unicode `White_Space` property (what `char::is_whitespace` tests).
pub open spec fn spec_is_ws(c: char) -> bool {
    let v = c as u32;
    ||| (0x09 <= v <= 0x0D)
    ||| v == 0x20
    ||| v == 0x85
    ||| v == 0xA0
    ||| v == 0x1680
    ||| (0x2000 <= v <= 0x200A)
    ||| v == 0x2028
    ||| v == 0x2029
    ||| v == 0x202F
    ||| v == 0x205F
    ||| v == 0x3000
}

/// Whether `c` is whitespace.
pub fn is_ws(c: char) -> (r: bool)
    ensures
        r == spec_is_ws(c),
{
    let v = c as u32;
    (0x09 <= v && v <= 0x0D) || v == 0x20 || v == 0x85 || v == 0xA0 || v == 0x1680 || (0x2000
        <= v && v <= 0x200A) || v == 0x2028 || v == 0x2029 || v == 0x202F || v == 0x205F || v
        == 0x3000
}

/// `s` without its leading whitespace.
pub open spec fn trim_start(s: Seq<char>) -> Seq<char>
    decreases s.len(),
{
    if s.len() > 0 && spec_is_ws(s[0]) {
        trim_start(s.drop_first())
    } else {
        s
    }
}

/// `s` without its trailing whitespace.
pub open spec fn trim_end(s: Seq<char>) -> Seq<char>
    decreases s.len(),
{
    if s.len() > 0 && spec_is_ws(s.last()) {
        trim_end(s.drop_last())
    } else {
        s
    }
}

/// `s` without leading and trailing whitespace (`str::trim`).
pub open spec fn trim(s: Seq<char>) -> Seq<char> {
    trim_end(trim_start(s))
}

/// `s` without trailing occurrences of `c` (`str::trim_end_matches` with a char).
pub open spec fn trim_end_char(s: Seq<char>, c: char) -> Seq<char>
    decreases s.len(),
{
    if s.len() > 0 && s.last() == c {
        trim_end_char(s.drop_last(), c)
    } else {
        s
    }
}

/// `s` begins with `p`.
pub open spec fn has_prefix(s: Seq<char>, p: Seq<char>) -> bool {
    p.len() <= s.len() && s.take(p.len() as int) == p
}

/// `s` ends with `p`.
pub open spec fn has_suffix(s: Seq<char>, p: Seq<char>) -> bool {
    p.len() <= s.len() && s.skip(s.len() - p.len()) == p
}

/// The characters of `s` from `from` to `to`.
pub fn sub_chars(s: &[char], from: usize, to: usize) -> (r: Vec<char>)
    requires
        from <= to <= s@.len(),
    ensures
        r@ == s@.subrange(from as int, to as int),
{
    let mut r: Vec<char> = Vec::new();
    let mut i = from;
    while i < to
        invariant
            from <= i <= to <= s@.len(),
            r@ == s@.subrange(from as int, i as int),
        decreases to - i,
    {
        r.push(s[i]);
        assert(s@.subrange(from as int, i + 1) =~= s@.subrange(from as int, i as int).push(s@[i as int]));
        i = i + 1;
    }
    r
}

proof fn lemma_trim_start_skip(s: Seq<char>, i: int)
    requires
        0 <= i <= s.len(),
        forall|k: int| 0 <= k < i ==> spec_is_ws(#[trigger] s[k]),
    ensures
        trim_start(s) == trim_start(s.skip(i)),
    decreases i,
{
    if i > 0 {
        assert(s.drop_first().skip(i - 1) =~= s.skip(i));
        lemma_trim_start_skip(s.drop_first(), i - 1);
    } else {
        assert(s.skip(0) =~= s);
    }
}

proof fn lemma_trim_end_take(s: Seq<char>, j: int)
    requires
        0 <= j <= s.len(),
        forall|k: int| j <= k < s.len() ==> spec_is_ws(#[trigger] s[k]),
    ensures
        trim_end(s) == trim_end(s.take(j)),
    decreases s.len() - j,
{
    if j < s.len() {
        assert(s.drop_last().take(j) =~= s.take(j));
        lemma_trim_end_take(s.drop_last(), j);
    } else {
        assert(s.take(j) =~= s);
    }
}

/// The bounds of `s[from..to]` without leading and trailing whitespace.
pub fn trim_bounds(s: &[char], from: usize, to: usize) -> (r: (usize, usize))
    requires
        from <= to <= s@.len(),
    ensures
        from <= r.0 <= r.1 <= to,
        s@.subrange(r.0 as int, r.1 as int) == trim(s@.subrange(from as int, to as int)),
{
    let ghost t = s@.subrange(from as int, to as int);
    let mut a = from;
    while a < to && is_ws(s[a])
        invariant
            from <= a <= to <= s@.len(),
            forall|k: int| from <= k < a ==> spec_is_ws(#[trigger] s@[k]),
        decreases to - a,
    {
        a = a + 1;
    }
    proof {
        assert forall|k: int| 0 <= k < a - from implies spec_is_ws(#[trigger] t[k]) by {
            assert(t[k] == s@[from + k]);
        }
        lemma_trim_start_skip(t, a - from);
        assert(t.skip(a - from) =~= s@.subrange(a as int, to as int));
        if a < to {
            assert(!spec_is_ws(s@[a as int]));
        }
        assert(trim_start(s@.subrange(a as int, to as int)) == s@.subrange(a as int, to as int));
    }
    let mut b = to;
    while b > a && is_ws(s[b - 1])
        invariant
            from <= a <= b <= to <= s@.len(),
            forall|k: int| b <= k < to ==> spec_is_ws(#[trigger] s@[k]),
        decreases b - a,
    {
        b = b - 1;
    }
    proof {
        let u = s@.subrange(a as int, to as int);
        assert forall|k: int| b - a <= k < u.len() implies spec_is_ws(#[trigger] u[k]) by {
            assert(u[k] == s@[a + k]);
        }
        lemma_trim_end_take(u, b - a);
        assert(u.take(b - a) =~= s@.subrange(a as int, b as int));
        if b > a {
            assert(!spec_is_ws(s@[b - 1]));
            assert(s@.subrange(a as int, b as int).last() == s@[b - 1]);
        }
        assert(trim_end(s@.subrange(a as int, b as int)) == s@.subrange(a as int, b as int));
    }
    (a, b)
}

/// `s` without its trailing whitespace.
pub fn trim_end_chars(s: &[char]) -> (r: Vec<char>)
    ensures
        r@ == trim_end(s@),
{
    let mut b = s.len();
    while b > 0 && is_ws(s[b - 1])
        invariant
            b <= s@.len(),
            forall|k: int| b <= k < s@.len() ==> spec_is_ws(#[trigger] s@[k]),
        decreases b,
    {
        b = b - 1;
    }
    proof {
        lemma_trim_end_take(s@, b as int);
        if b > 0 {
            assert(s@.take(b as int).last() == s@[b - 1]);
        }
        assert(trim_end(s@.take(b as int)) == s@.take(b as int));
    }
    sub_chars(s, 0, b)
}

/// `s[from..to]` without leading and trailing whitespace.
pub fn trim_chars(s: &[char], from: usize, to: usize) -> (r: Vec<char>)
    requires
        from <= to <= s@.len(),
    ensures
        r@ == trim(s@.subrange(from as int, to as int)),
{
    let (a, b) = trim_bounds(s, from, to);
    sub_chars(s, a, b)
}

/// Whether `s[from..]` begins with `p`.
pub fn starts_with_at(s: &[char], from: usize, p: &str) -> (r: bool)
    requires
        from <= s@.len(),
    ensures
        r == has_prefix(s@.skip(from as int), p@),
{
    let pc = to_chars(p);
    if pc.len() > s.len() - from {
        return false;
    }
    let n = s.len();
    let mut i: usize = 0;
    while i < pc.len()
        invariant
            n == s@.len(),
            i <= pc@.len(),
            pc@ == p@,
            from + pc@.len() <= s@.len(),
            forall|k: int| 0 <= k < i ==> s@[from + k] == pc@[k],
        decreases pc.len() - i,
    {
        if s[from + i] != pc[i] {
            assert(s@.skip(from as int).take(pc@.len() as int)[i as int] == s@[from + i]);
            return false;
        }
        i = i + 1;
    }
    assert(s@.skip(from as int).take(pc@.len() as int) =~= pc@);
    true
}


/// The texts joined with `'\n'` between neighbours (`[..].join("\n")`).
pub open spec fn join_nl(ps: Seq<Seq<char>>) -> Seq<char>
    decreases ps.len(),
{
    if ps.len() == 0 {
        Seq::empty()
    } else if ps.len() == 1 {
        ps[0]
    } else {
        join_nl(ps.drop_last()).push('\n') + ps.last()
    }
}

/// The strings joined with `'\n'` between neighbours.
pub fn join_lines(parts: &[String]) -> (s: String)
    ensures
        s@ == join_nl(strs_view(parts@)),
{
    let ghost ps = strs_view(parts@);
    let mut s = String::new();
    let mut i: usize = 0;
    while i < parts.len()
        invariant
            i <= parts@.len(),
            ps == strs_view(parts@),
            s@ == join_nl(ps.take(i as int)),
        decreases parts.len() - i,
    {
        assert(ps.take(i + 1).drop_last() =~= ps.take(i as int));
        assert(ps.take(i + 1).last() == parts@[i as int]@);
        if i > 0 {
            push_char(&mut s, '\n');
        } else {
            assert(s@ =~= Seq::<char>::empty());
            assert(ps.take(1)[0] == parts@[0]@);
        }
        push_str(&mut s, parts[i].as_str());
        i = i + 1;
    }
    assert(ps.take(ps.len() as int) =~= ps);
    s
}

/// Appends a copy of `t` to `parts`.
pub fn push_owned(parts: &mut Vec<String>, t: &str)
    ensures
        strs_view(final(parts)@) == strs_view(old(parts)@).push(t@),
{
    let ghost before = parts@;
    parts.push(t.to_owned());
    assert(strs_view(parts@) =~= strs_view(before).push(t@));
}


/// The index after the leading whitespace of `s`.
pub fn trim_start_index(s: &[char]) -> (a: usize)
    ensures
        a <= s@.len(),
        s@.skip(a as int) == trim_start(s@),
{
    let mut a: usize = 0;
    while a < s.len() && is_ws(s[a])
        invariant
            a <= s@.len(),
            forall|k: int| 0 <= k < a ==> spec_is_ws(#[trigger] s@[k]),
        decreases s.len() - a,
    {
        a = a + 1;
    }
    proof {
        lemma_trim_start_skip(s@, a as int);
        if a < s.len() {
            assert(s@.skip(a as int)[0] == s@[a as int]);
        }
    }
    a
}

/// `s` without leading occurrences of `c`.
pub open spec fn trim_start_char(s: Seq<char>, c: char) -> Seq<char>
    decreases s.len(),
{
    if s.len() > 0 && s[0] == c {
        trim_start_char(s.drop_first(), c)
    } else {
        s
    }
}

/// `s` without leading and trailing occurrences of `c` (`str::trim_matches`
/// with a char).
pub open spec fn trim_matches(s: Seq<char>, c: char) -> Seq<char> {
    trim_end_char(trim_start_char(s, c), c)
}

proof fn lemma_trim_start_char_skip(s: Seq<char>, c: char, i: int)
    requires
        0 <= i <= s.len(),
        forall|k: int| 0 <= k < i ==> #[trigger] s[k] == c,
    ensures
        trim_start_char(s, c) == trim_start_char(s.skip(i), c),
    decreases i,
{
    if i > 0 {
        assert(s.drop_first().skip(i - 1) =~= s.skip(i));
        lemma_trim_start_char_skip(s.drop_first(), c, i - 1);
    } else {
        assert(s.skip(0) =~= s);
    }
}

proof fn lemma_trim_end_char_take_at(s: Seq<char>, c: char, j: int)
    requires
        0 <= j <= s.len(),
        forall|k: int| j <= k < s.len() ==> #[trigger] s[k] == c,
    ensures
        trim_end_char(s, c) == trim_end_char(s.take(j), c),
    decreases s.len() - j,
{
    if j < s.len() {
        assert(s.drop_last().take(j) =~= s.take(j));
        lemma_trim_end_char_take_at(s.drop_last(), c, j);
    } else {
        assert(s.take(j) =~= s);
    }
}

/// `s[from..]` without leading occurrences of `c`.
pub fn trim_start_char_from(s: &[char], from: usize, c: char) -> (r: Vec<char>)
    requires
        from <= s@.len(),
    ensures
        r@ == trim_start_char(s@.skip(from as int), c),
{
    let n = s.len();
    let ghost t = s@.skip(from as int);
    let mut a: usize = from;
    while a < n && s[a] == c
        invariant
            n == s@.len(),
            from <= a <= n,
            forall|k: int| from <= k < a ==> #[trigger] s@[k] == c,
        decreases n - a,
    {
        a = a + 1;
    }
    proof {
        assert forall|k: int| 0 <= k < a - from implies #[trigger] t[k] == c by {
            assert(t[k] == s@[from + k]);
        }
        lemma_trim_start_char_skip(t, c, a - from);
        assert(t.skip(a - from) =~= s@.subrange(a as int, n as int));
        if a < n {
            assert(s@.subrange(a as int, n as int)[0] == s@[a as int]);
        }
    }
    sub_chars(s, a, n)
}

/// `s` without leading and trailing occurrences of `c`.
pub fn trim_char_chars(s: &[char], c: char) -> (r: Vec<char>)
    ensures
        r@ == trim_matches(s@, c),
{
    let n = s.len();
    let mut a: usize = 0;
    while a < n && s[a] == c
        invariant
            n == s@.len(),
            a <= n,
            forall|k: int| 0 <= k < a ==> #[trigger] s@[k] == c,
        decreases n - a,
    {
        a = a + 1;
    }
    proof {
        lemma_trim_start_char_skip(s@, c, a as int);
        if a < n {
            assert(s@.skip(a as int)[0] == s@[a as int]);
        }
    }
    let mut b = n;
    while b > a && s[b - 1] == c
        invariant
            n == s@.len(),
            a <= b <= n,
            forall|k: int| b <= k < n ==> #[trigger] s@[k] == c,
        decreases b - a,
    {
        b = b - 1;
    }
    proof {
        let u = s@.skip(a as int);
        assert forall|k: int| b - a <= k < u.len() implies #[trigger] u[k] == c by {
            assert(u[k] == s@[a + k]);
        }
        lemma_trim_end_char_take_at(u, c, b - a);
        assert(u.take(b - a) =~= s@.subrange(a as int, b as int));
        if b > a {
            assert(s@.subrange(a as int, b as int).last() == s@[b - 1]);
        }
    }
    sub_chars(s, a, b)
}

/// `p` occurs in `s` at position `i`.
pub open spec fn occurs_at(s: Seq<char>, p: Seq<char>, i: int) -> bool {
    0 <= i <= s.len() && has_prefix(s.skip(i), p)
}

/// `i` is the first position at which `p` occurs in `s`.
pub open spec fn first_occurrence(s: Seq<char>, p: Seq<char>, i: int) -> bool {
    occurs_at(s, p, i) && forall|j: int| 0 <= j < i ==> !occurs_at(s, p, j)
}

/// The first position of `p` in `s` (`str::find`).
pub fn find_pattern(s: &[char], p: &str) -> (r: Option<usize>)
    ensures
        match r {
            Some(i) => first_occurrence(s@, p@, i as int),
            None => forall|j: int| !occurs_at(s@, p@, j),
        },
{
    let mut i: usize = 0;
    while i <= s.len()
        invariant
            i <= s@.len() + 1,
            forall|j: int| 0 <= j < i ==> !occurs_at(s@, p@, j),
        decreases s@.len() + 1 - i,
    {
        if starts_with_at(s, i, p) {
            return Some(i);
        }
        if i == s.len() {
            return None;
        }
        i = i + 1;
    }
    None
}

/// No character of `s` is `c`.
pub open spec fn lacks(s: Seq<char>, c: char) -> bool {
    forall|k: int| 0 <= k < s.len() ==> s[k] != c
}

/// `i` is the position of the first `c` in `s`.
pub open spec fn first_at_char(s: Seq<char>, c: char, i: int) -> bool {
    0 <= i < s.len() && s[i] == c && lacks(s.take(i), c)
}

pub proof fn lemma_first_at_char_unique(s: Seq<char>, c: char, i: int, j: int)
    requires
        first_at_char(s, c, i),
        first_at_char(s, c, j),
    ensures
        i == j,
{
    if i < j {
        assert(s.take(j)[i] == s[i]);
    } else if j < i {
        assert(s.take(i)[j] == s[j]);
    }
}

pub fn find_char_index(s: &[char], c: char) -> (r: Option<usize>)
    ensures
        match r {
            Some(i) => first_at_char(s@, c, i as int),
            None => lacks(s@, c),
        },
{
    let mut i: usize = 0;
    while i < s.len()
        invariant
            i <= s@.len(),
            lacks(s@.take(i as int), c),
        decreases s.len() - i,
    {
        if s[i] == c {
            return Some(i);
        }
        assert(s@.take(i + 1) =~= s@.take(i as int).push(s@[i as int]));
        i = i + 1;
    }
    assert(s@.take(s@.len() as int) =~= s@);
    None
}



/// Whether `s` ends with `p`.
pub fn ends_with_chars(s: &[char], p: &[char]) -> (r: bool)
    ensures
        r == has_suffix(s@, p@),
{
    let n = s.len();
    let m = p.len();
    if m > n {
        return false;
    }
    let start = n - m;
    let mut j: usize = 0;
    while j < m
        invariant
            j <= m,
            m == p@.len(),
            n == s@.len(),
            start + m == n,
            forall|k: int| 0 <= k < j ==> s@[start + k] == p@[k],
        decreases m - j,
    {
        if s[start + j] != p[j] {
            assert(s@.skip(start as int)[j as int] == s@[start + j]);
            return false;
        }
        j = j + 1;
    }
    assert(s@.skip(start as int) =~= p@);
    true
}

} // verus!
