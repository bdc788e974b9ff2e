//! The boundary to the IANA zone database.
//!
//! The database itself is not verified. What it answers is given two names,
//! `zone_known` and `zone_local_time`, and the rest of the crate is proved
//! for whatever those names stand for.

use vstd::prelude::*;
use chrono::TimeZone;
use chrono::Offset;

verus! {

/// What the zone database says of one instant in one zone.
#[derive(Clone, Copy, Debug, PartialEq, Eq, Structural)]
pub enum LocalOffset {
    /// Exactly one local time; the offset from UTC in seconds.
    Unambiguous(i32),
    /// Two local times (clocks went back); the offsets of the earlier and of
    /// the later one.
    Ambiguous(i32, i32),
    /// No local time (clocks went forward).
    Gap,
}

/// Whether every offset in an answer is less than a day, either way.
pub open spec fn within_a_day(answer: LocalOffset) -> bool {
    match answer {
        LocalOffset::Unambiguous(offset) => -86400 < offset < 86400,
        LocalOffset::Ambiguous(earlier, later) => -86400 < earlier < 86400 && -86400 < later
            < 86400,
        LocalOffset::Gap => true,
    }
}

/// Whether the zone database knows a zone of this name.
pub uninterp spec fn zone_known(name: Seq<char>) -> bool;

/// The database's answer for an instant, given in seconds since the epoch,
/// in the zone of this name.
pub uninterp spec fn zone_local_time(name: Seq<char>, instant: int) -> LocalOffset;

/// Trusted: `chrono_tz::Tz::from_str`, which looks the name up in the
/// compiled-in table of zones and fails for any other string. The contract
/// only names the outcome: the result says whether the lookup succeeded.
#[verifier::external_body]
pub(crate) fn zone_exists(name: &str) -> (known: bool)
    ensures
        known == zone_known(name@),
{
    name.parse::<chrono_tz::Tz>().is_ok()
}

/// Trusted: `chrono::TimeZone::timestamp_opt` on `Utc`, followed by
/// `DateTime::with_timezone` into the zone that `chrono_tz::Tz::from_str`
/// finds, and `Offset::fix` on the offset in force there. The contract names
/// the outcome: `None` exactly for a name that the database does not know,
/// otherwise the three-way answer for the instant, each offset in seconds
/// east of UTC. Each offset is that of a `chrono::FixedOffset`, which holds
/// less than a day either way.
#[verifier::external_body]
pub(crate) fn zone_lookup(name: &str, instant: u32) -> (answer: Option<LocalOffset>)
    ensures
        answer.is_some() == zone_known(name@),
        answer.is_some() ==> answer.unwrap() == zone_local_time(name@, instant as int),
        answer.is_some() ==> within_a_day(answer.unwrap()),
{
    let tz = name.parse::<chrono_tz::Tz>().ok()?;
    let east = |at: chrono::DateTime<chrono::Utc>| at.with_timezone(&tz).offset().fix().local_minus_utc();
    Some(match chrono::Utc.timestamp_opt(i64::from(instant), 0) {
        chrono::LocalResult::Single(at) => LocalOffset::Unambiguous(east(at)),
        chrono::LocalResult::Ambiguous(first, second) => LocalOffset::Ambiguous(east(first), east(second)),
        chrono::LocalResult::None => LocalOffset::Gap,
    })
}

/// The rule for picking one offset: an unambiguous answer is taken as it is,
/// of two candidates the earlier one wins, and a gap has no offset.
pub open spec fn chosen_offset(answer: LocalOffset) -> Option<i32> {
    match answer {
        LocalOffset::Unambiguous(offset) => Some(offset),
        LocalOffset::Ambiguous(earlier, _) => Some(earlier),
        LocalOffset::Gap => None,
    }
}

/// Applies the rule of `chosen_offset`.
pub fn resolve_offset(answer: LocalOffset) -> (offset: Option<i32>)
    ensures
        offset == chosen_offset(answer),
{
    match answer {
        LocalOffset::Unambiguous(offset) => Some(offset),
        LocalOffset::Ambiguous(earlier, _) => Some(earlier),
        LocalOffset::Gap => None,
    }
}

} // verus!
