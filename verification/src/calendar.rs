//! Calendar-month arithmetic on UTC millisecond timestamps, done by chrono.
use vstd::prelude::*;

use chrono::{DateTime, Months, Utc};

verus! {

/// What chrono gives for `months` calendar months after a UTC millisecond
/// timestamp: `None` when the timestamp is outside chrono's range,
/// `Some(None)` when the result is, `Some(Some(t))` otherwise.
pub uninterp spec fn utc_months_after(timestamp: i64, months: u32) -> Option<Option<i64>>;

/// Calls `DateTime::<Utc>::from_timestamp_millis`, then
/// `DateTime::checked_add_months` and `DateTime::timestamp_millis`.
///
/// The contract names the result and claims one fact that chrono's source
/// shows: adding at least one month moves the calendar month forward and
/// keeps the time of day, so the result is later than the input.
#[verifier::external_body]
pub(crate) fn months_after(timestamp: i64, months: u32) -> (r: Option<Option<i64>>)
    ensures
        r == utc_months_after(timestamp, months),
        months >= 1 ==> (r matches Some(Some(next)) ==> next > timestamp),
{
    match DateTime::<Utc>::from_timestamp_millis(timestamp) {
        None => None,
        Some(date_time) => Some(
            date_time.checked_add_months(Months::new(months)).map(|next| next.timestamp_millis()),
        ),
    }
}

} // verus!
