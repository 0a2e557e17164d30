//! The wall clock, read once per mutation through the chrono crate.

use vstd::prelude::*;

use chrono::Datelike;
use chrono::Timelike;

use crate::timestamp::Timestamp;

verus! {

/// Relies on chrono::Utc::now with its Datelike and Timelike readers:
/// month, day, hour, minute and second are each in their calendar range.
/// Nothing is promised of the year, which follows the host clock.
#[verifier::external_body]
fn now_fields() -> (r: (i32, u8, u8, u8, u8, u8))
    ensures
        1 <= r.1 <= 12,
        1 <= r.2 <= 31,
        r.3 <= 23,
        r.4 <= 59,
        r.5 <= 59,
{
    let n = chrono::Utc::now();
    (
        n.year(),
        n.month() as u8,
        n.day() as u8,
        n.hour() as u8,
        n.minute() as u8,
        n.second() as u8,
    )
}

/// The current UTC time, its year held to the stored range.
pub fn now_timestamp() -> (r: Timestamp)
    ensures
        r.valid(),
{
    let f = now_fields();
    let year: u16 = if f.0 < 1970 {
        1970
    } else if f.0 > 9999 {
        9999
    } else {
        f.0 as u16
    };
    Timestamp { year, month: f.1, day: f.2, hour: f.3, minute: f.4, second: f.5 }
}

} // verus!
