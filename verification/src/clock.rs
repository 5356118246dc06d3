//! The store's single source of time.

use vstd::prelude::*;

verus! {

/// Relies on `chrono::Utc::now`, read as `timestamp_millis`: the current
/// wall-clock time in milliseconds since the Unix epoch. The result depends
/// on the machine's clock, so nothing is promised of it; every caller
/// states what holds for any reading.
#[verifier::external_body]
pub(crate) fn now_millis() -> i64 {
    chrono::Utc::now().timestamp_millis()
}

} // verus!
