//! The boundary to the calendar: full dates are written and read by chrono.
//!
//! Neither direction is verified here. Each result is given a name, and the
//! callers are proved for whatever the names stand for.

use vstd::prelude::*;
use vstd::string::*;
use chrono::TimeZone;

verus! {

/// The pattern of a full date and time: year, month, day, hour, minute and
/// second.
pub open spec fn datetime_pattern() -> Seq<char> {
    "%Y-%m-%d %H:%M:%S"@
}

/// The text that chrono writes for a UTC instant, in seconds since the
/// epoch, under a pattern.
pub uninterp spec fn utc_text(instant: int, pattern: Seq<char>) -> Seq<char>;

/// The seconds since the epoch of the date and time that chrono reads from
/// a text under a pattern, taken as UTC; `None` where it reads none.
pub uninterp spec fn text_seconds(text: Seq<u8>, pattern: Seq<char>) -> Option<int>;

/// Trusted: `chrono::TimeZone::timestamp_opt` on `Utc`, then
/// `DateTime::format` and `to_string`. Every instant of 32 bits is in
/// chrono's range; the pattern is held to one that chrono can write, since
/// it panics on a pattern it cannot. The contract names the text.
#[verifier::external_body]
pub(crate) fn format_utc(instant: u32, pattern: &str) -> (text: String)
    requires
        pattern@ == datetime_pattern(),
    ensures
        text@ == utc_text(instant as int, pattern@),
{
    chrono::Utc.timestamp_opt(i64::from(instant), 0).unwrap().format(pattern).to_string()
}

/// Trusted: `chrono::NaiveDateTime::parse_from_str`, then `and_utc` and
/// `timestamp` on what it read. The contract names the outcome: `None`
/// exactly where chrono reports an error.
#[verifier::external_body]
pub(crate) fn parse_datetime(text: &str, pattern: &str) -> (seconds: Option<i64>)
    ensures
        seconds.is_some() == text_seconds(text.spec_bytes(), pattern@).is_some(),
        seconds.is_some() ==> text_seconds(text.spec_bytes(), pattern@) == Some(
            seconds.unwrap() as int,
        ),
{
    match chrono::NaiveDateTime::parse_from_str(text, pattern) {
        Ok(at) => Some(at.and_utc().timestamp()),
        Err(_) => None,
    }
}

} // verus!
