//! Wall-clock readings, taken through chrono. The values depend on the
//! machine's clock, so nothing is promised of them; every caller states what
//! holds whatever value came back.
use vstd::prelude::*;

verus! {

/// Relies on `chrono::Utc::now` and `DateTime::format` with `"%Y-%m-%d"`:
/// renders the current UTC calendar date. The value depends on the wall
/// clock, so nothing is promised of it.
#[verifier::external_body]
pub(crate) fn utc_date_string() -> String {
    chrono::Utc::now().format("%Y-%m-%d").to_string()
}

/// Relies on `chrono::Utc::now` and `DateTime::timestamp`: seconds since the
/// Unix epoch. The value depends on the wall clock, so nothing is promised
/// of it.
#[verifier::external_body]
pub(crate) fn unix_timestamp() -> i64 {
    chrono::Utc::now().timestamp()
}

} // verus!
