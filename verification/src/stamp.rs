//! Trusted bridge to the outside world: fresh identifiers for orders and
//! trades, and wall-clock timestamps. The matching logic itself never
//! depends on the values produced here.

use vstd::prelude::*;

verus! {

/// Relies on `uuid::Uuid::new_v4` and its `Display` form: a random
/// version-4 UUID rendered in the 36-character hyphenated form. The value
/// is random, so nothing beyond its length is promised.
#[verifier::external_body]
pub(crate) fn fresh_id() -> (r: String)
    ensures
        r@.len() == 36,
{
    uuid::Uuid::new_v4().to_string()
}

/// Relies on `chrono::Utc::now` and `DateTime::timestamp_millis`: the
/// current wall-clock instant in milliseconds since the Unix epoch.
/// Nothing is promised of the value; the engine breaks ties by queue
/// position, never by comparing timestamps.
#[verifier::external_body]
pub(crate) fn now_millis() -> (r: i64) {
    chrono::Utc::now().timestamp_millis()
}

} // verus!
