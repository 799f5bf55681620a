//! The calls into `serde_json`.

use vstd::prelude::*;

verus! {

/// A JSON document as `serde_json` holds it. Nothing is known of what is
/// inside.
#[verifier::external_type_specification]
#[verifier::external_body]
pub struct ExJsonValue(serde_json::Value);

/// The error of `serde_json`. Nothing is known of what is inside.
#[verifier::external_type_specification]
#[verifier::external_body]
pub struct ExJsonError(serde_json::Error);

/// Whether `serde_json` reads `text` as one JSON document.
pub uninterp spec fn json_parses(text: Seq<char>) -> bool;

/// Reads `text` as a JSON document.
///
/// Calls `serde_json::from_str` for a `serde_json::Value`. Whether the
/// call succeeds depends on the text alone; nothing is claimed about the
/// document that comes back.
#[verifier::external_body]
pub(crate) fn parse_json(text: &str) -> (result: Result<serde_json::Value, serde_json::Error>)
    ensures
        result is Ok <==> json_parses(text@),
{
    serde_json::from_str::<serde_json::Value>(text)
}

} // verus!
