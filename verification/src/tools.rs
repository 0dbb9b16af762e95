//! The built-in tools' settings and the computations behind their output:
//! human-readable sizes, image types, read listings and exact-match edits.

use vstd::prelude::*;
use crate::text::{dec, digit, digit_char, push_char, push_dec};

verus! {

/// The default timeout of a shell command, in seconds.
pub const DEFAULT_TIMEOUT_SECS: u64 = 120;

/// Runs shell commands in a working directory.
#[derive(Debug, Clone)]
pub struct BashTool {
    pub cwd: String,
    pub timeout_secs: u64,
}

impl BashTool {
    /// A shell tool for `cwd` with the default timeout.
    pub fn new(cwd: &str) -> (t: Self)
        ensures
            t.cwd@ == cwd@,
            t.timeout_secs == DEFAULT_TIMEOUT_SECS,
    {
        BashTool { cwd: cwd.to_owned(), timeout_secs: DEFAULT_TIMEOUT_SECS }
    }

    /// Sets the timeout, in seconds.
    pub fn with_timeout(self, secs: u64) -> (t: Self)
        ensures
            t.cwd == self.cwd,
            t.timeout_secs == secs,
    {
        let mut t = self;
        t.timeout_secs = secs;
        t
    }
}

/// Makes exact-match edits to files.
#[derive(Debug, Clone, Copy, Default)]
pub struct EditTool;

impl EditTool {
    /// The edit tool.
    pub fn new() -> Self {
        EditTool
    }
}

/// Reads files with line numbers.
#[derive(Debug, Clone, Copy, Default)]
pub struct ReadTool;

impl ReadTool {
    /// The read tool.
    pub fn new() -> Self {
        ReadTool
    }
}

/// Creates or overwrites files.
#[derive(Debug, Clone, Copy, Default)]
pub struct WriteTool;

impl WriteTool {
    /// The write tool.
    pub fn new() -> Self {
        WriteTool
    }
}

/// Lists directories.
#[derive(Debug, Clone, Copy, Default)]
pub struct LsTool;

impl LsTool {
    /// The listing tool.
    pub fn new() -> Self {
        LsTool
    }
}

/// Finds files by glob pattern under a directory.
#[derive(Debug, Clone)]
pub struct FindTool {
    pub cwd: String,
}

impl FindTool {
    /// A find tool rooted at `cwd`.
    pub fn new(cwd: &str) -> (t: Self)
        ensures
            t.cwd@ == cwd@,
    {
        FindTool { cwd: cwd.to_owned() }
    }
}

/// Searches file contents under a directory.
#[derive(Debug, Clone)]
pub struct GrepTool {
    pub cwd: String,
}

impl GrepTool {
    /// A search tool rooted at `cwd`.
    pub fn new(cwd: &str) -> (t: Self)
        ensures
            t.cwd@ == cwd@,
    {
        GrepTool { cwd: cwd.to_owned() }
    }
}

// ---------------------------------------------------------------------------
// Human-readable sizes
// ---------------------------------------------------------------------------

/// `2^s`.
pub open spec fn p2(s: nat) -> nat
    decreases s,
{
    if s == 0 { 1 } else { 2 * p2((s - 1) as nat) }
}

/// `a / d` rounded to the nearest integer, ties to even.
pub open spec fn round_half_even(a: nat, d: nat) -> nat
    recommends
        d > 0,
{
    let q = a / d;
    let r = a % d;
    if 2 * r < d {
        q
    } else if 2 * r > d {
        q + 1
    } else if q % 2 == 0 {
        q
    } else {
        q + 1
    }
}

/// `n` rounded to a multiple of `2^s`, for the smallest `s` (at most 11)
/// that leaves at most 53 significant bits.
pub open spec fn f64_round_from(n: nat, s: nat) -> nat
    decreases 11 - s,
{
    if n < p2(53 + s) || s >= 11 {
        round_half_even(n, p2(s)) * p2(s)
    } else {
        f64_round_from(n, s + 1)
    }
}

/// The value of `n as f64`: `n` rounded to 53 significant bits, ties to even.
pub open spec fn f64_of(n: nat) -> nat {
    f64_round_from(n, 0)
}

/// A number of tenths written with one decimal.
pub open spec fn tenths_text(t: nat) -> Seq<char> {
    dec(t / 10) + seq!['.', digit_char(t % 10)]
}

/// A size in bytes as people read it: bytes below 1 KiB; whole KiB below
/// 1 MiB; MiB with one decimal below 1 GiB; GiB with one decimal above,
/// each rounded half to even from the exact value of the `f64` quotient.
pub open spec fn human_size(n: nat) -> Seq<char> {
    if n < 1024 {
        dec(n) + seq!['B']
    } else if n < 1024 * 1024 {
        dec(round_half_even(n, 1024)) + seq!['K']
    } else if n < 1024 * 1024 * 1024 {
        tenths_text(round_half_even(10 * n, 1024 * 1024)) + seq!['M']
    } else {
        tenths_text(round_half_even(10 * f64_of(n), 1024 * 1024 * 1024)) + seq!['G']
    }
}

fn round_half_even_exec(a: u128, d: u128) -> (r: u128)
    requires
        d > 0,
        a / d < u128::MAX,
    ensures
        r == round_half_even(a as nat, d as nat),
        r <= a / d + 1,
{
    let q = a / d;
    let rem = a % d;
    if rem < d - rem {
        q
    } else if rem > d - rem {
        q + 1
    } else if q % 2 == 0 {
        q
    } else {
        q + 1
    }
}

proof fn lemma_p2_values()
    ensures
        p2(10) == 1024,
        p2(20) == 1024 * 1024,
        p2(30) == 1024 * 1024 * 1024,
        p2(53) == 0x20_0000_0000_0000,
        p2(64) == 0x1_0000_0000_0000_0000,
{
    reveal_with_fuel(p2, 65);
}

proof fn lemma_p2_step(s: nat)
    ensures
        p2(s + 1) == 2 * p2(s),
        p2(s) >= 1,
    decreases s,
{
    if s > 0 {
        lemma_p2_step((s - 1) as nat);
    }
}

proof fn lemma_p2_add(a: nat, b: nat)
    ensures
        p2(a + b) == p2(a) * p2(b),
    decreases b,
{
    if b > 0 {
        lemma_p2_add(a, (b - 1) as nat);
        lemma_p2_step((a + b - 1) as nat);
        lemma_p2_step((b - 1) as nat);
        assert(p2(a) * (2 * p2((b - 1) as nat)) == 2 * (p2(a) * p2((b - 1) as nat))) by (nonlinear_arith);
        assert(p2(b) == 2 * p2((b - 1) as nat));
        assert(a + b == (a + b - 1) + 1);
    } else {
        assert(p2(0) == 1);
        assert(a + b == a);
    }
}

proof fn lemma_p2_mono(a: nat, b: nat)
    requires
        a <= b,
    ensures
        p2(a) <= p2(b),
    decreases b - a,
{
    if a < b {
        lemma_p2_mono(a, (b - 1) as nat);
        lemma_p2_step((b - 1) as nat);
    }
}

proof fn lemma_round_bound(n: nat, s: nat)
    requires
        s <= 11,
        n < p2(64),
    ensures
        round_half_even(n, p2(s)) * p2(s) <= p2(64),
{
    let u = p2(s);
    let m = p2((64 - s) as nat);
    lemma_p2_step(s);
    lemma_p2_add((64 - s) as nat, s);
    assert(p2(64) == m * u);
    let q = n / u;
    let r = n % u;
    assert(n == q * u + r && 0 <= r < u) by (nonlinear_arith)
        requires u >= 1, q == n / u, r == n % u;
    assert(q < m) by (nonlinear_arith)
        requires n == q * u + r, 0 <= r, n < m * u, u >= 1;
    assert((q + 1) * u <= m * u) by (nonlinear_arith)
        requires q + 1 <= m, u >= 1;
    assert(q * u <= (q + 1) * u) by (nonlinear_arith)
        requires u >= 1;
}

/// `n as f64`, as an exact integer.
fn f64_value(n: u64) -> (r: u128)
    ensures
        r == f64_of(n as nat),
        r <= 0x1_0000_0000_0000_0000,
{
    let mut s: u64 = 0;
    let mut unit: u128 = 1;
    let mut bound: u128 = 0x20_0000_0000_0000;
    proof {
        lemma_p2_values();
    }
    while (n as u128) >= bound && s < 11
        invariant
            s <= 11,
            unit == p2(s as nat),
            bound == p2(53 + s as nat),
            f64_of(n as nat) == f64_round_from(n as nat, s as nat),
        decreases 11 - s,
    {
        proof {
            lemma_p2_step(s as nat);
            lemma_p2_step(53 + s as nat);
            lemma_p2_mono(s as nat, 10);
            lemma_p2_mono(53 + s as nat, 63);
            lemma_p2_values();
            assert(p2(63) * 2 == p2(64)) by {
                lemma_p2_step(63);
            }
        }
        unit = unit * 2;
        bound = bound * 2;
        s = s + 1;
    }
    proof {
        lemma_p2_values();
        lemma_p2_mono(s as nat, 11);
        assert(p2(11) == 2048) by {
            reveal_with_fuel(p2, 12);
        }
        lemma_round_bound(n as nat, s as nat);
        lemma_p2_step(s as nat);
    }
    let q = round_half_even_exec(n as u128, unit);
    q * unit
}

fn push_tenths(out: &mut String, t: u64)
    ensures
        final(out)@ == old(out)@ + tenths_text(t as nat),
{
    push_dec(out, t / 10);
    push_char(out, '.');
    push_char(out, digit((t % 10) as usize));
}

/// A size in bytes as people read it (`512B`, `2K`, `1.9M`, `2.8G`).
pub fn format_human_size(bytes: u64) -> (r: String)
    ensures
        r@ == human_size(bytes as nat),
{
    let mut r = String::new();
    if bytes < 1024 {
        push_dec(&mut r, bytes);
        push_char(&mut r, 'B');
    } else if bytes < 1024 * 1024 {
        let k = round_half_even_exec(bytes as u128, 1024);
        assert(k <= 1024) by (nonlinear_arith)
            requires k <= (bytes as int) / 1024int + 1, bytes < 1024 * 1024;
        push_dec(&mut r, k as u64);
        push_char(&mut r, 'K');
    } else if bytes < 1024 * 1024 * 1024 {
        let t = round_half_even_exec(10 * (bytes as u128), 1024 * 1024);
        assert(t <= 10241) by (nonlinear_arith)
            requires t <= (10 * (bytes as int)) / (1048576int) + 1, bytes < 1024 * 1024 * 1024;
        push_tenths(&mut r, t as u64);
        push_char(&mut r, 'M');
    } else {
        let v = f64_value(bytes);
        let t = round_half_even_exec(10 * v, 1024 * 1024 * 1024);
        assert(t <= 0x40_0000_0000) by (nonlinear_arith)
            requires t <= (10 * (v as int)) / (1073741824int) + 1, v <= 0x1_0000_0000_0000_0000;
        push_tenths(&mut r, t as u64);
        push_char(&mut r, 'G');
    }
    r
}

} // verus!
