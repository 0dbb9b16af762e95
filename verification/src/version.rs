//! The program's version and the hint shown when a newer one is published.

use vstd::prelude::*;
use crate::text::{push_str, str_eq};

verus! {

/// The version of this program.
pub const VERSION: &'static str = "0.1.0";

/// The hint that announces version `latest`.
pub open spec fn update_hint(latest: Seq<char>) -> Seq<char> {
    "piso "@ + latest + " available (current: "@ + VERSION@ + "). Update: cargo install piso"@
}

/// The hint that announces a newer version.
pub fn format_update_hint(latest: &str) -> (r: String)
    ensures
        r@ == update_hint(latest@),
{
    let mut r = String::new();
    push_str(&mut r, "piso ");
    push_str(&mut r, latest);
    push_str(&mut r, " available (current: ");
    push_str(&mut r, VERSION);
    push_str(&mut r, "). Update: cargo install piso");
    r
}

/// The published version to announce: `latest` when it differs from this
/// version, nothing otherwise.
pub fn newer_version(latest: &str) -> (r: Option<String>)
    ensures
        latest@ != VERSION@ ==> (r matches Some(v) && v@ == latest@),
        latest@ == VERSION@ ==> r is None,
{
    if str_eq(latest, VERSION) {
        None
    } else {
        Some(latest.to_owned())
    }
}

} // verus!
