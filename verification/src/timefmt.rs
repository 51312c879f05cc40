//! Timestamps in text form, as the `chrono` crate reads them.

use vstd::prelude::*;

verus! {

/// The instant that `text` denotes in the notation of RFC 3339, in
/// milliseconds since the Unix epoch; nothing where `text` is not in that
/// notation.
pub uninterp spec fn rfc3339_millis(text: Seq<char>) -> Option<i64>;

/// Reads `text` with `chrono::DateTime::parse_from_rfc3339` and converts what
/// comes back with `DateTime::timestamp_millis`. The outcome depends on the
/// text alone, which is all that the contract claims: it gives the outcome
/// its name.
#[verifier::external_body]
pub(crate) fn parse_rfc3339(text: &str) -> (r: Option<i64>)
    ensures
        r == rfc3339_millis(text@),
{
    match chrono::DateTime::parse_from_rfc3339(text) {
        Ok(dt) => Some(dt.timestamp_millis()),
        Err(_) => None,
    }
}

/// The instant that `text` denotes, or `fallback` where it denotes none.
pub open spec fn instant_or(text: Seq<char>, fallback: i64) -> i64 {
    match rfc3339_millis(text) {
        Some(t) => t,
        None => fallback,
    }
}

/// Reads an instant in the notation of RFC 3339; `fallback` stands in for a
/// text that is not in that notation.
pub fn parse_instant_or(text: &str, fallback: i64) -> (t: i64)
    ensures
        t == instant_or(text@, fallback),
{
    match parse_rfc3339(text) {
        Some(t) => t,
        None => fallback,
    }
}

} // verus!
