//! Well-formedness of configuration documents, as the JSON parser judges it.

use vstd::prelude::*;

verus! {

/// The error with which the JSON parser rejects a text.
#[verifier::external_type_specification]
#[verifier::external_body]
pub struct ExJsonError(serde_json::Error);

/// Whether the JSON parser accepts `text` as exactly one JSON value.
pub uninterp spec fn is_json_document(text: Seq<u8>) -> bool;

/// Runs `serde_json::from_slice` on `text`, asking for a `serde_json::Value`.
///
/// Trusted: the call succeeds exactly on the texts that `is_json_document`
/// names, which says no more than that the parser's verdict depends on the
/// bytes alone. The parsed value is dropped; the parser's error is handed on.
#[verifier::external_body]
fn parse_document(text: &[u8]) -> (outcome: Result<(), serde_json::Error>)
    ensures
        outcome is Ok == is_json_document(text@),
{
    match serde_json::from_slice::<serde_json::Value>(text) {
        Ok(_) => Ok(()),
        Err(error) => Err(error),
    }
}

/// Whether `text` is a well-formed JSON document.
pub fn check_document(text: &[u8]) -> (ok: bool)
    ensures
        ok == is_json_document(text@),
{
    match parse_document(text) {
        Ok(_) => true,
        Err(_) => false,
    }
}

} // verus!
