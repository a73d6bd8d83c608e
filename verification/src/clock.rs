//! Clock readings, taken on trust; everything computed from them is
//! verified for every possible reading.

use vstd::prelude::*;

verus! {

/// Relies on `chrono::Utc::now`: the clock's reading in milliseconds
/// since the epoch. Nothing is promised of the reading itself.
#[verifier::external_body]
pub fn now_millis() -> (r: i64) {
    chrono::Utc::now().timestamp_millis()
}

/// Relies on `chrono::Utc::now`: the clock's reading in seconds since
/// the epoch. Nothing is promised of the reading itself.
#[verifier::external_body]
pub fn now_secs() -> (r: i64) {
    chrono::Utc::now().timestamp()
}

/// A clock reading as an unsigned number: readings before the epoch
/// count as zero.
pub fn clamp_reading(t: i64) -> (r: u64)
    ensures
        r as int == if t >= 0 {
            t as int
        } else {
            0
        },
{
    if t >= 0 {
        t as u64
    } else {
        0
    }
}

} // verus!
