//! Identifiers and clock readings, taken from the `uuid` and `chrono` crates.
use vstd::prelude::*;

verus! {

/// Whether a text is accepted by `uuid::Uuid::parse_str`.
pub uninterp spec fn parses_as_uuid(s: Seq<char>) -> bool;

/// Relies on `uuid::Uuid::new_v4` and its `Display`: a fresh random identifier in the
/// hyphenated form, which `Uuid::parse_str` accepts.
#[verifier::external_body]
pub(crate) fn new_id() -> (r: String)
    ensures
        parses_as_uuid(r@),
{
    uuid::Uuid::new_v4().to_string()
}

/// Relies on `uuid::Uuid::parse_str`: whether the text is a valid identifier.
#[verifier::external_body]
pub(crate) fn is_uuid(s: &str) -> (r: bool)
    ensures
        r == parses_as_uuid(s@),
{
    uuid::Uuid::parse_str(s).is_ok()
}

/// Relies on `chrono::Utc::now` and `timestamp_millis`: the current time in milliseconds since
/// the Unix epoch. Nothing is promised of the value.
#[verifier::external_body]
pub(crate) fn now_millis() -> (r: i64) {
    chrono::Utc::now().timestamp_millis()
}

} // verus!
