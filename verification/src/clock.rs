//! Calendar time, as the `chrono` crate reads it.

use crate::models::Moment;
use vstd::prelude::*;

verus! {

/// The first second of the calendar, counted from 1970: the start of the year -262143.
pub const FIRST_SECOND: i64 = -8_334_601_228_800;

/// The last second of the calendar, counted from 1970: the end of the year 262142.
pub const LAST_SECOND: i64 = 8_210_266_876_799;

/// Whether the calendar has a day for this many seconds since 1970.
pub open spec fn calendar_holds(secs: i64) -> bool {
    FIRST_SECOND <= secs <= LAST_SECOND
}

/// Whether nanoseconds may follow these seconds: less than a second of them, or less than
/// two where a leap second may stand.
pub open spec fn valid_nanos(secs: int, nanos: int) -> bool {
    nanos < 1_000_000_000 || (nanos < 2_000_000_000 && secs % 60 == 59)
}

/// `chrono::DateTime::from_timestamp` gives the moment of the given seconds and
/// nanoseconds, which reads back as just those, and gives none for seconds beyond its
/// calendar, which reaches from the year -262143 to the year 262142, or for nanoseconds that
/// do not fit.
#[verifier::external_body]
pub(crate) fn moment_at(secs: i64, nanos: u32) -> (r: Option<Moment>)
    ensures
        r == (if calendar_holds(secs) && valid_nanos(secs as int, nanos as int) {
            Some(Moment { secs, nanos })
        } else {
            None
        }),
{
    let moment = chrono::DateTime::from_timestamp(secs, nanos)?;
    Some(Moment { secs: moment.timestamp(), nanos: moment.timestamp_subsec_nanos() })
}

/// The seconds since 1970 of an RFC 3339 date and time, if a text is one.
pub uninterp spec fn rfc3339_seconds(s: Seq<char>) -> Option<i64>;

/// `chrono::DateTime::parse_from_rfc3339` reads a date and time from its text alone; the
/// result is its seconds since 1970. Which texts it takes, and which seconds it gives, is
/// left to it.
#[verifier::external_body]
pub(crate) fn parse_rfc3339(s: &str) -> (r: Option<i64>)
    ensures
        r == rfc3339_seconds(s@),
{
    chrono::DateTime::parse_from_rfc3339(s).ok().map(|moment| moment.timestamp())
}

} // verus!
