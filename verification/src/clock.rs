//! Wall-clock readings, taken on trust.  Time is an outside input: nothing
//! is assumed about one reading beyond what holds of every possible value.

use vstd::prelude::*;

verus! {

/// Relies on chrono's `Utc::now`: a millisecond reading of the wall clock.
/// No two calls are related; callers state what holds for every value.
#[verifier::external_body]
pub fn now_millis() -> u64 {
    let ms = chrono::Utc::now().timestamp_millis();
    if ms >= 0 {
        ms as u64
    } else {
        0
    }
}

/// Relies on chrono's `Utc::now` and `format`: the current UTC time written
/// as `%Y%m%d%H%M%S`.  Every outcome is a string of ASCII digits, at least
/// fourteen of them (four-digit year or wider).
#[verifier::external_body]
pub fn now_compact_timestamp() -> (r: String)
    ensures
        r@.len() >= 14,
        forall|i: int| 0 <= i < r@.len() ==> '0' <= #[trigger] r@[i] <= '9',
{
    chrono::Utc::now().format("%Y%m%d%H%M%S").to_string()
}

/// Relies on chrono's `Utc::now` and `format`: the current UTC time written
/// as `%Y%m%d-%H%M%S`.  Every outcome consists of ASCII digits and a dash.
#[verifier::external_body]
pub fn now_stamp_for_filename() -> (r: String)
    ensures
        r@.len() >= 15,
        forall|i: int| 0 <= i < r@.len() ==> ('0' <= #[trigger] r@[i] <= '9' || r@[i] == '-'),
{
    chrono::Utc::now().format("%Y%m%d-%H%M%S").to_string()
}

/// Relies on chrono's `Utc::now` and `format`: the current UTC date written
/// as `%Y-%m-%d`.  Every outcome consists of ASCII digits and dashes.
#[verifier::external_body]
pub fn now_date_for_filename() -> (r: String)
    ensures
        r@.len() >= 10,
        forall|i: int| 0 <= i < r@.len() ==> ('0' <= #[trigger] r@[i] <= '9' || r@[i] == '-'),
{
    chrono::Utc::now().format("%Y-%m-%d").to_string()
}

} // verus!
