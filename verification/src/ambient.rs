//! Values drawn from the ambient environment: the current time and
//! fresh identifiers.  Nothing can be promised about either result, so
//! the callers state only how they place these values, never what they
//! are.

use vstd::prelude::*;

verus! {

/// Relies on chrono's `Utc::now` and `DateTime::format`: a timestamp of
/// the current time, rendered as "%Y-%m-%d %H:%M:%S UTC".  The result
/// depends on the clock, so nothing is promised of it.
#[verifier::external_body]
pub fn now_utc_string() -> String {
    chrono::Utc::now().format("%Y-%m-%d %H:%M:%S UTC").to_string()
}

/// Relies on uuid's `Uuid::new_v4` and its hyphenated rendering: a
/// fresh random identifier.  The result is random, so nothing is
/// promised of it.
#[verifier::external_body]
pub fn new_uuid_string() -> String {
    uuid::Uuid::new_v4().to_string()
}

} // verus!
