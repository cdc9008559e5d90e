//! Validity of exact-match result messages.
//!
//! Under the exact-match strategy a submitted result is kept as raw text
//! and is only required to be well-formed JSON. Whether a string is
//! well-formed JSON is a fact of its characters alone; it is named here
//! and decided by the JSON parser itself.

use vstd::prelude::*;

verus! {

/// Whether a string is well-formed JSON.
pub uninterp spec fn json_ok(s: Seq<char>) -> bool;

/// Relies on serde_json::from_str::<serde_json::Value>: it accepts a
/// string exactly when the string is well-formed JSON, and its verdict
/// depends on the characters alone.
#[verifier::external_body]
pub(crate) fn json_is_valid(s: &str) -> (r: bool)
    ensures
        r == json_ok(s@),
{
    serde_json::from_str::<serde_json::Value>(s).is_ok()
}

} // verus!
