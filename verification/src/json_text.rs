//! JSON string literals, as serde_json writes them.

use vstd::prelude::*;
use crate::session::hex_digit;

verus! {

/// How one character stands inside a JSON string literal: `"` and `\` and
/// the control characters below U+0020 are escaped, the short escapes
/// where JSON has one and `\u00XX` with lowercase hexadecimal digits
/// otherwise; every other character stands for itself.
pub open spec fn json_escape(c: char) -> Seq<char> {
    if c == '"' {
        seq!['\\', '"']
    } else if c == '\\' {
        seq!['\\', '\\']
    } else if c == '\n' {
        seq!['\\', 'n']
    } else if c == '\r' {
        seq!['\\', 'r']
    } else if c == '\t' {
        seq!['\\', 't']
    } else if c == '\x08' {
        seq!['\\', 'b']
    } else if c == '\x0c' {
        seq!['\\', 'f']
    } else if (c as u32) < 0x20 {
        seq!['\\', 'u', '0', '0', hex_digit(((c as u32) / 16) as nat), hex_digit(((c as u32) % 16) as nat)]
    } else {
        seq![c]
    }
}

/// The characters of `s`, each escaped.
pub open spec fn json_escape_all(s: Seq<char>) -> Seq<char>
    decreases s.len(),
{
    if s.len() == 0 {
        Seq::empty()
    } else {
        json_escape_all(s.drop_last()) + json_escape(s.last())
    }
}

/// `s` as a JSON string literal, quotes included.
pub open spec fn json_quoted(s: Seq<char>) -> Seq<char> {
    seq!['"'] + json_escape_all(s) + seq!['"']
}

/// `s` as a JSON string literal: the compact text of
/// `serde_json::Value::String(s)`. The contract restates the escape table
/// of serde_json's serializer (`ESCAPE` and `write_char_escape` in ser.rs).
#[verifier::external_body]
pub(crate) fn json_quote(s: &str) -> (r: String)
    ensures
        r@ == json_quoted(s@),
{
    serde_json::Value::from(s).to_string()
}

} // verus!
