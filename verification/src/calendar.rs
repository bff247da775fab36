//! Instants and calendar days, and what is asked of `chrono` about them.
//!
//! An instant is a count of seconds since 1970-01-01T00:00:00Z and a count
//! of nanoseconds into that second. A calendar day is the number of a day in
//! the proleptic Gregorian calendar, with 0001-01-01 as day 1, held in an
//! `i32`: days compare and hash as integers do.
//!
//! What this module knows of time it has from `chrono`, and none of that is
//! proved. Each of its functions but `Instant::at` hands one question to
//! `chrono` and states what the answer is known to be: for most of them no
//! more than that equal questions have equal answers.

use chrono::{DateTime, Datelike, Local, NaiveDate, NaiveDateTime, Utc};
use std::fmt::Write;
use vstd::prelude::*;

verus! {

/// The compact UTC form in which the tracker writes an instant.
pub const COMPACT_UTC: &'static str = "%Y%m%dT%H%M%SZ";

/// The form in which a day is sent to the tracker and to the remote service.
pub const ISO_DAY: &'static str = "%Y-%m-%d";

/// The form in which the last second of a day is sent to the tracker.
pub const DAY_END: &'static str = "%Y-%m-%dT23:59:59";

/// The day number of 1970-01-01.
pub const EPOCH_DAY: i32 = 719_163;

/// A point in time: `secs` whole seconds since 1970-01-01T00:00:00Z, and
/// `nanos` nanoseconds after that. A leap second is written as `chrono`
/// writes it, with the second before it in `secs` and a thousand million or
/// more in `nanos`; it counts as the second that follows.
#[derive(Debug, Clone, Copy, PartialEq, Eq, Structural)]
pub struct Instant {
    pub secs: i64,
    pub nanos: u32,
}

impl Instant {
    /// The nanoseconds from 1970-01-01T00:00:00Z to the instant.
    pub open spec fn total_nanos(self) -> int {
        self.secs * 1_000_000_000 + self.nanos
    }

    /// The instant at the beginning of the second `secs`.
    pub fn at(secs: i64) -> (r: Instant)
        ensures
            r == (Instant { secs, nanos: 0 }),
    {
        Instant { secs, nanos: 0 }
    }
}

/// The instant that `chrono` reads from `text` under the strftime pattern
/// `pattern`, taking the date and time written there as UTC; `None` where it
/// rejects the text.
pub uninterp spec fn naive_utc_instant(text: Seq<char>, pattern: Seq<char>) -> Option<Instant>;

/// The instant that `chrono` reads from `text` as an RFC 3339 date and time;
/// `None` where it rejects the text.
pub uninterp spec fn rfc3339_instant(text: Seq<char>) -> Option<Instant>;

/// The number of the day with the given year, month and day of the month;
/// `None` where the calendar has no such day or `chrono` cannot hold it.
pub uninterp spec fn civil_day(year: i32, month: u32, day: u32) -> Option<i32>;

/// The text that `chrono` writes for the day with number `day` under the
/// strftime pattern `pattern`; `None` where it cannot hold the day or cannot
/// write it under that pattern.
pub uninterp spec fn day_text(day: i32, pattern: Seq<char>) -> Option<Seq<char>>;

/// The number of the day on which the second `secs` falls in UTC.
pub open spec fn utc_day(secs: i64) -> int {
    secs as int / 86_400 + EPOCH_DAY as int
}

/// Whether the second `secs` lies so far within what `chrono` holds that
/// its day is at hand in every time zone: more than a day from the first and
/// from the last second that `chrono` holds, which are those of the years
/// -262143 and 262142.
pub open spec fn day_at_hand(secs: i64) -> bool {
    -8_000_000_000_000 <= secs <= 8_000_000_000_000
}

/// Whether `instant` is one that the clock can show: none before 1970, none
/// after the last that `chrono` holds, and no leap second.
pub open spec fn clock_range(instant: Instant) -> bool {
    0 <= instant.secs <= 8_210_266_876_799 && instant.nanos < 1_000_000_000
}

/// Calls `NaiveDateTime::parse_from_str` and reads the result as UTC, by
/// `DateTime::timestamp` and `DateTime::timestamp_subsec_nanos`. The contract
/// only names the outcome.
#[verifier::external_body]
pub(crate) fn parse_naive_utc(text: &str, pattern: &str) -> (r: Option<Instant>)
    ensures
        r == naive_utc_instant(text@, pattern@),
{
    let read = NaiveDateTime::parse_from_str(text, pattern).ok()?.and_utc();
    Some(Instant { secs: read.timestamp(), nanos: read.timestamp_subsec_nanos() })
}

/// Calls `DateTime::parse_from_rfc3339` and reads the result by
/// `DateTime::timestamp` and `DateTime::timestamp_subsec_nanos`. The contract
/// only names the outcome.
#[verifier::external_body]
pub(crate) fn parse_rfc3339(text: &str) -> (r: Option<Instant>)
    ensures
        r == rfc3339_instant(text@),
{
    let read = DateTime::parse_from_rfc3339(text).ok()?;
    Some(Instant { secs: read.timestamp(), nanos: read.timestamp_subsec_nanos() })
}

/// Calls `NaiveDate::from_ymd_opt`. The contract only names the outcome.
#[verifier::external_body]
pub(crate) fn day_of(year: i32, month: u32, day: u32) -> (r: Option<i32>)
    ensures
        r == civil_day(year, month, day),
{
    NaiveDate::from_ymd_opt(year, month, day).map(|d| d.num_days_from_ce())
}

/// Calls `NaiveDate::format` on the day with number `day` and collects what
/// it writes. The contract only names the outcome.
#[verifier::external_body]
pub(crate) fn write_day(day: i32, pattern: &str) -> (r: Option<String>)
    ensures
        r is Some == day_text(day, pattern@) is Some,
        r matches Some(s) ==> day_text(day, pattern@) == Some(s@),
{
    let date = NaiveDate::from_num_days_from_ce_opt(day)?;
    let mut out = String::new();
    write!(out, "{}", date.format(pattern)).ok()?;
    Some(out)
}

/// Calls `Utc::now`. What the clock shows is not known. `chrono` takes the
/// time since 1970 from the system, whole seconds and the nanoseconds of the
/// second begun, and makes a `DateTime` of it; it does not return where the
/// clock stands before 1970 or beyond what it holds. So the instant is in
/// `clock_range`.
#[verifier::external_body]
pub(crate) fn utc_now() -> (r: Instant)
    ensures
        clock_range(r),
{
    let now = Utc::now();
    Instant { secs: now.timestamp(), nanos: now.timestamp_subsec_nanos() }
}

/// Asks `chrono` for the day on which the second `instant` falls in the
/// machine's time zone, by `DateTime::with_timezone` and `NaiveDateTime::checked_add_offset`.
/// The zone is not known here. An offset from UTC is always less than a day,
/// so the local day is the UTC day or one of its two neighbours. `None` where
/// `chrono` cannot hold the instant or its local time: `from_timestamp`
/// fails only beyond the range that `chrono` holds, and `checked_add_offset`
/// only on the first and the last day of it, so a second in `day_at_hand`
/// always has a day. `chrono` does not return where the machine's time zone
/// data cannot be used.
#[verifier::external_body]
pub(crate) fn local_day(instant: i64) -> (r: Option<i32>)
    ensures
        r matches Some(d) ==> utc_day(instant) - 1 <= d <= utc_day(instant) + 1,
        day_at_hand(instant) ==> r is Some,
{
    let local = DateTime::<Utc>::from_timestamp(instant, 0)?.with_timezone(&Local);
    let shifted = local.naive_utc().checked_add_offset(*local.offset())?;
    Some(shifted.date().num_days_from_ce())
}

} // verus!
