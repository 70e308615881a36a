//! The clock and the identifier source, which only outside crates provide.
use vstd::prelude::*;

verus! {

/// Relies on chrono's `Utc::now` and `DateTime::timestamp_millis`: the current
/// time in milliseconds since the Unix epoch. Nothing is promised of its value.
#[verifier::external_body]
pub(crate) fn now_millis() -> (r: i64) {
    chrono::Utc::now().timestamp_millis()
}

/// Relies on chrono's `Utc::now` and `DateTime::timestamp_subsec_nanos`: the
/// nanoseconds within the current second, below two billion (a leap second
/// reaches past one billion).
#[verifier::external_body]
pub(crate) fn subsec_nanos() -> (r: u32)
    ensures
        r < 2_000_000_000,
{
    chrono::Utc::now().timestamp_subsec_nanos()
}

/// Relies on uuid's `Uuid::new_v4` and its `Display`: a fresh random identifier
/// in hyphenated form, 36 characters long.
#[verifier::external_body]
pub(crate) fn new_uuid() -> (r: String)
    ensures
        r@.len() == 36,
{
    uuid::Uuid::new_v4().to_string()
}

} // verus!
