//! Dates, and the wall clock of New York.
use chrono::{Datelike, TimeZone, Timelike};
use vstd::prelude::*;

verus! {

/// The seconds since 1970 that the calendar covers.
pub open spec fn in_calendar(secs: int) -> bool {
    -8334601228800 <= secs <= 8210266876799
}

pub open spec fn is_leap(year: int) -> bool {
    year % 4 == 0 && (year % 100 != 0 || year % 400 == 0)
}

pub open spec fn days_in_month(year: int, month: int) -> int {
    if month == 2 {
        if is_leap(year) {
            29
        } else {
            28
        }
    } else if month == 4 || month == 6 || month == 9 || month == 11 {
        30
    } else {
        31
    }
}

/// A day that the calendar has.
pub open spec fn is_date(year: int, month: int, day: int) -> bool {
    -262143 <= year <= 262142 && 1 <= month <= 12 && 1 <= day <= days_in_month(year, month)
}

/// The seconds since 1970 of the instant that an RFC 3339 text names.
pub uninterp spec fn rfc3339_secs(s: Seq<char>) -> Option<i64>;

/// The wall clock of New York at an instant: year, month, day, hour, minute and
/// second.
pub uninterp spec fn new_york_clock(secs: i64) -> (i32, u32, u32, u32, u32, u32);

/// The wall clock of New York shows the given hour, to the second, at `secs`.
pub open spec fn shows_hour(secs: i64, year: i32, month: u32, day: u32, hour: u32) -> bool {
    in_calendar(secs as int) && new_york_clock(secs) == (year, month, day, hour, 0u32, 0u32)
}

/// It does so at `secs` and at no other instant.
pub open spec fn only_shows_hour(secs: i64, year: i32, month: u32, day: u32, hour: u32) -> bool {
    shows_hour(secs, year, month, day, hour) && forall|other: i64| #[trigger]
        shows_hour(other, year, month, day, hour) ==> other == secs
}

/// The one instant at which the wall clock of New York shows the given hour.
/// There is none for an hour that the clock skips, shows twice or never shows.
pub open spec fn hour_instant(year: i32, month: u32, day: u32, hour: u32) -> Option<i64> {
    if is_date(year as int, month as int, day as int) && exists|secs: i64| #[trigger]
        only_shows_hour(secs, year, month, day, hour) {
        Some(choose|secs: i64| #[trigger] only_shows_hour(secs, year, month, day, hour))
    } else {
        None
    }
}

/// `chrono::DateTime::parse_from_rfc3339`, then the seconds since 1970 of the
/// instant. The result depends on the text alone, and lies in the calendar.
#[verifier::external_body]
pub(crate) fn read_rfc3339(s: &str) -> (r: Option<i64>)
    ensures
        r == rfc3339_secs(s@),
        r matches Some(t) ==> in_calendar(t as int),
{
    chrono::DateTime::parse_from_rfc3339(s).ok().map(
        |t| t.with_timezone(&chrono::Utc).timestamp(),
    )
}

/// `chrono::DateTime::with_timezone` with `chrono_tz::America::New_York`, on the
/// instant that `chrono::TimeZone::timestamp_opt` gives, which exists throughout
/// the calendar. The result depends on the instant alone; month, day, hour,
/// minute and second are in their ranges. From 1970 on the day is one of the
/// calendar, and New York is whole hours from UTC, so that at a full hour the
/// clock shows a full hour.
#[verifier::external_body]
pub(crate) fn read_new_york_clock(secs: i64) -> (r: (i32, u32, u32, u32, u32, u32))
    requires
        in_calendar(secs as int),
    ensures
        r == new_york_clock(secs),
        1 <= r.1 <= 12,
        1 <= r.2 <= 31,
        r.3 < 24,
        r.4 < 60,
        r.5 < 60,
        0 <= secs ==> is_date(r.0 as int, r.1 as int, r.2 as int),
        0 <= secs && secs % 3600 == 0 ==> r.4 == 0 && r.5 == 0,
{
    let t = chrono::Utc.timestamp_opt(secs, 0).single().unwrap();
    let t = t.with_timezone(&chrono_tz::America::New_York);
    (t.year(), t.month(), t.day(), t.hour(), t.minute(), t.second())
}

/// `chrono::TimeZone::from_local_datetime` of `chrono_tz::America::New_York`, on
/// the date of `chrono::NaiveDate::from_ymd_opt` and the time of
/// `chrono::NaiveTime::from_hms_opt`, where it gives a single instant: the one at
/// which the clock that `read_new_york_clock` reads shows that hour. There is
/// none for a day that the calendar lacks.
#[verifier::external_body]
pub(crate) fn read_new_york_hour(year: i32, month: u32, day: u32, hour: u32) -> (r: Option<i64>)
    ensures
        r == hour_instant(year, month, day, hour),
{
    let date = chrono::NaiveDate::from_ymd_opt(year, month, day)?;
    let time = chrono::NaiveTime::from_hms_opt(hour, 0, 0)?;
    let local = chrono::NaiveDateTime::new(date, time);
    chrono_tz::America::New_York.from_local_datetime(&local).single().map(|t| t.timestamp())
}

/// A year that a clock can show.
pub open spec fn is_clock_year(year: i32) -> bool {
    1970 <= year <= 262142
}

/// `chrono::Utc::now`: the year of the present moment. It is one from 1970 on that
/// the calendar covers; which one is left open.
#[verifier::external_body]
pub(crate) fn current_year() -> (r: i32)
    ensures
        is_clock_year(r),
{
    chrono::Utc::now().year()
}

} // verus!
