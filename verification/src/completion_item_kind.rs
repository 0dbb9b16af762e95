//! The LSP `CompletionItemKind` codes that the client uses.

use vstd::prelude::*;

verus! {

pub const TEXT: i32 = 1;
pub const METHOD: i32 = 2;
pub const FUNCTION: i32 = 3;
pub const FIELD: i32 = 5;
pub const VARIABLE: i32 = 6;
pub const CLASS: i32 = 7;
pub const INTERFACE: i32 = 8;
pub const MODULE: i32 = 9;
pub const PROPERTY: i32 = 10;
pub const FILE: i32 = 17;
pub const FOLDER: i32 = 19;

} // verus!
