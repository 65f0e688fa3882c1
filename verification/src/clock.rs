//! Wall-clock and calendar calls. Timestamps are carried as RFC 3339
//! strings; these helpers read the clock, parse a timestamp back into epoch
//! seconds, and render a day as a calendar date.

use vstd::prelude::*;

verus! {

/// Seconds per calendar day.
pub const SECS_PER_DAY: i64 = 86_400;

/// The last epoch second this library will render as a date
/// (end of year 9999).
pub const MAX_RENDERED_SECS: i64 = 253_402_300_799;

/// The epoch seconds an RFC 3339 timestamp string denotes, or nothing when
/// the string does not parse; a function of the characters alone.
pub uninterp spec fn spec_timestamp_secs(s: Seq<char>) -> Option<i64>;

/// The calendar date (as in `2024-01-31`, in UTC) of an epoch second; a
/// function of the value alone.
pub uninterp spec fn spec_date_string(secs: i64) -> Seq<char>;

/// Relies on chrono's DateTime::parse_from_rfc3339 (with the parsed value's
/// timestamp): whether a string parses, and to which epoch second, depends
/// on its characters alone.
#[verifier::external_body]
pub(crate) fn parse_timestamp_secs(s: &str) -> (r: Option<i64>)
    ensures
        r == spec_timestamp_secs(s@),
{
    match chrono::DateTime::parse_from_rfc3339(s) {
        Ok(t) => Some(t.timestamp()),
        Err(_) => None,
    }
}

/// Relies on chrono's DateTime::from_timestamp and its `%Y-%m-%d` date
/// formatting: the rendered date is a function of the epoch second alone,
/// and every second in the accepted range is representable.
#[verifier::external_body]
pub(crate) fn format_utc_date(secs: i64) -> (r: String)
    requires
        0 <= secs <= MAX_RENDERED_SECS,
    ensures
        r@ == spec_date_string(secs),
{
    match chrono::DateTime::<chrono::Utc>::from_timestamp(secs, 0) {
        Some(t) => t.format("%Y-%m-%d").to_string(),
        None => String::new(),
    }
}

/// Relies on chrono's Utc::now and to_rfc3339: reads the wall clock, about
/// which nothing can be promised.
#[verifier::external_body]
pub(crate) fn now_rfc3339() -> String {
    chrono::Utc::now().to_rfc3339()
}

/// Relies on chrono's Utc::now and timestamp: reads the wall clock, about
/// which nothing can be promised.
#[verifier::external_body]
pub(crate) fn now_utc_secs() -> i64 {
    chrono::Utc::now().timestamp()
}

/// The epoch day an RFC 3339 timestamp falls on, in UTC, when it parses.
pub open spec fn spec_timestamp_day(s: Seq<char>) -> Option<int> {
    match spec_timestamp_secs(s) {
        Some(secs) => Some((secs as int) / (SECS_PER_DAY as int)),
        None => None,
    }
}

/// Epoch day of an epoch second (floor division).
pub fn day_of_secs(secs: i64) -> (day: i64)
    ensures
        day == (secs as int) / (SECS_PER_DAY as int),
{
    let r = secs.checked_div_euclid(SECS_PER_DAY);
    r.unwrap()
}

/// The epoch day a timestamp string falls on, or nothing when it does not
/// parse.
pub fn day_of_timestamp(s: &str) -> (r: Option<i64>)
    ensures
        (match r {
            Some(day) => spec_timestamp_day(s@) == Some(day as int),
            None => spec_timestamp_day(s@) is None,
        }),
{
    match parse_timestamp_secs(s) {
        Some(secs) => Some(day_of_secs(secs)),
        None => None,
    }
}

} // verus!
