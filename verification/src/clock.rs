//! Calendar time for the names of backups and archive copies.

use chrono::DateTime;
use vstd::prelude::*;

verus! {

/// The time `epoch_secs` seconds after the Unix epoch, in UTC, as year, month,
/// day, an underscore, hour, minute and second.
pub uninterp spec fn utc_stamp(epoch_secs: i64) -> Seq<char>;

/// The first second that has a calendar date: the start of the first of
/// January of the year 262144 BCE, counted from the Unix epoch.
pub const FIRST_DATED_SECOND: i64 = -8_334_601_228_800;

/// The last second that has a calendar date: the end of the 31st of December
/// of the year 262142 CE, counted from the Unix epoch.
pub const LAST_DATED_SECOND: i64 = 8_210_266_876_799;

/// The time `epoch_secs` seconds after the Unix epoch has a calendar date.
pub open spec fn has_calendar_date(epoch_secs: i64) -> bool {
    FIRST_DATED_SECOND <= epoch_secs <= LAST_DATED_SECOND
}

/// Calls `DateTime::from_timestamp` and `DateTime::format` of the `chrono`
/// crate with the pattern `%Y%m%d_%H%M%S`.
///
/// `from_timestamp` gives a time exactly where the seconds fall on a date
/// that `chrono` can hold, from its least date to its greatest; the pattern is
/// one that `format` never fails on. The contract says so, and gives the text
/// a name; it does not say what the text is for a given time.
#[verifier::external_body]
pub(crate) fn format_stamp(epoch_secs: i64) -> (stamp: Option<String>)
    ensures
        stamp is Some <==> has_calendar_date(epoch_secs),
        stamp matches Some(text) ==> text@ == utc_stamp(epoch_secs),
{
    match DateTime::from_timestamp(epoch_secs, 0) {
        Some(time) => Some(time.format("%Y%m%d_%H%M%S").to_string()),
        None => None,
    }
}

} // verus!
