//! Calendar days in the local time zone.

use vstd::prelude::*;

verus! {

/// Today's date in the local time zone, written as year, month and day with
/// hyphens between them. It is `chrono::Local::now`, formatted by
/// `DateTime::format` with `%Y-%m-%d`. The text depends on the clock and on
/// the time zone of the machine, so nothing is claimed of it.
#[verifier::external_body]
pub(crate) fn local_today() -> (today: String) {
    chrono::Local::now().format("%Y-%m-%d").to_string()
}

/// The first second, counted from the start of 1970 (UTC), that has a
/// calendar day: midnight before January 1 of the year 262144 BCE, the
/// earliest date that chrono holds. That day is 96,465,292 days before the
/// start of 1970.
pub const FIRST_SECOND: i64 = -8_334_601_228_800;

/// The last second, counted from the start of 1970 (UTC), that has a
/// calendar day: the last one of December 31 of the year 262142, the latest
/// date that chrono holds. That day is 95,026,236 days after the start of
/// 1970.
pub const LAST_SECOND: i64 = 8_210_266_876_799;

/// Whether a number of seconds since the start of 1970 (UTC) falls on a day
/// that the calendar holds.
pub open spec fn has_calendar_day(seconds: i64) -> bool {
    FIRST_SECOND <= seconds <= LAST_SECOND
}

/// The local calendar day on which the given number of seconds since the
/// start of 1970 (UTC) falls, written like `local_today`. It is
/// `chrono::TimeZone::timestamp_opt` on `chrono::Local` with no nanoseconds.
/// That call gives a single moment wherever `DateTime::from_timestamp` has a
/// date for the seconds in UTC, whatever the time zone, and nothing
/// elsewhere: so there is a day exactly for the seconds from `FIRST_SECOND`
/// to `LAST_SECOND`. Which day it is depends on the time zone of the machine,
/// so nothing is claimed of the text.
#[verifier::external_body]
pub(crate) fn local_day_of(seconds: i64) -> (day: Option<String>)
    ensures
        day is Some <==> has_calendar_day(seconds),
{
    match chrono::TimeZone::timestamp_opt(&chrono::Local, seconds, 0).single() {
        Some(at) => Some(at.format("%Y-%m-%d").to_string()),
        None => None,
    }
}

} // verus!
