//! Points in time with a fixed UTC offset, and the calendar operations the
//! watchdog needs. The calendar itself is chrono's: each operation below
//! that reads or builds a calendar value calls chrono.

use chrono::Datelike;
use chrono::TimeZone;
use chrono::Timelike;
use vstd::prelude::*;

verus! {

/// The UNIX timestamp of chrono's earliest instant, -262143-01-01T00:00:00
/// (`NaiveDate::MIN` at midnight).
pub open spec fn earliest_timestamp() -> int {
    -8_334_601_228_800
}

/// The UNIX timestamp of chrono's latest whole second,
/// 262142-12-31T23:59:59 (`NaiveDate::MAX`, last second of the day).
pub open spec fn latest_timestamp() -> int {
    8_210_266_876_799
}

/// Whether `DateTime::from_timestamp(timestamp, 0)` gives a value: the
/// instant lies within chrono's range of dates.
pub open spec fn chrono_timestamp_in_range(timestamp: i64) -> bool {
    earliest_timestamp() <= timestamp <= latest_timestamp()
}

/// Whether the instant `timestamp` shown at `offset` has a local date and time
/// within chrono's range: chrono accepts the offset and the instant, and
/// `NaiveDateTime::checked_add_offset` of its UTC date and time gives a value,
/// that is the local time `timestamp + offset` lies within chrono's range too.
pub open spec fn chrono_local_in_range(timestamp: i64, offset: i32) -> bool {
    &&& valid_offset(offset as int)
    &&& chrono_timestamp_in_range(timestamp)
    &&& earliest_timestamp() <= timestamp + offset <= latest_timestamp()
}

/// The local calendar date (year, month, day) that chrono's
/// `DateTime::date_naive` gives for an instant and a fixed offset.
pub uninterp spec fn chrono_local_date(timestamp: i64, offset: i32) -> (i32, u32, u32);

/// The UNIX timestamp of the local date and time `year-month-day hour:minute:00`
/// at a fixed offset, as chrono's `FixedOffset::from_local_datetime(..).single()`
/// gives it, or `None` where chrono refuses the date, the time, the offset or
/// the range.
pub uninterp spec fn chrono_local_timestamp(
    offset: i32,
    year: i32,
    month: u32,
    day: u32,
    hour: u32,
    minute: u32,
) -> Option<i64>;

/// The (hour, minute) that `NaiveTime::parse_from_str(value, "%H:%M")` reads
/// from `value`, or `None` where it fails.
pub uninterp spec fn chrono_parse_hour_minute(value: Seq<char>) -> Option<(u32, u32)>;

/// `DateTime::from_timestamp(timestamp, 0).is_some()`: chrono gives a
/// value exactly for the timestamps from `NaiveDate::MIN` at midnight to the
/// last second of `NaiveDate::MAX`.
#[verifier::external_body]
pub(crate) fn timestamp_in_range(timestamp: i64) -> (r: bool)
    ensures
        r == chrono_timestamp_in_range(timestamp),
{
    chrono::DateTime::from_timestamp(timestamp, 0).is_some()
}

/// `DateTime::from_timestamp(timestamp, 0)`, then
/// `NaiveDateTime::checked_add_offset` of its UTC date and time with
/// `FixedOffset::east_opt(offset)`: whether the local date and time exist.
/// `checked_add_offset` moves the date by at most one day and refuses a date
/// beyond `NaiveDate::MIN` or `NaiveDate::MAX`, so it gives a value exactly
/// where `timestamp + offset` lies within chrono's range.
#[verifier::external_body]
fn local_in_range(timestamp: i64, offset: i32) -> (r: bool)
    ensures
        r == chrono_local_in_range(timestamp, offset),
{
    let zone = match chrono::FixedOffset::east_opt(offset) {
        Some(z) => z,
        None => return false,
    };
    match chrono::DateTime::from_timestamp(timestamp, 0) {
        Some(t) => t.naive_utc().checked_add_offset(zone).is_some(),
        None => false,
    }
}

/// An instant, in seconds since the UNIX epoch and nanoseconds into that
/// second, together with the fixed offset (seconds east of UTC) in which it
/// is shown: the value that chrono's `DateTime<FixedOffset>` holds.
pub struct ZonedTime {
    timestamp: i64,
    nanos: u32,
    offset: i32,
}

/// The mathematical content of a [`ZonedTime`].
pub struct ZonedTimeView {
    pub timestamp: i64,
    pub nanos: u32,
    pub offset: i32,
}

impl View for ZonedTime {
    type V = ZonedTimeView;

    closed spec fn view(&self) -> ZonedTimeView {
        ZonedTimeView { timestamp: self.timestamp, nanos: self.nanos, offset: self.offset }
    }
}

/// The value of an optional instant.
pub open spec fn zoned_opt_view(o: Option<ZonedTime>) -> Option<ZonedTimeView> {
    match o {
        Some(t) => Some(t@),
        None => None,
    }
}

/// A fixed offset that chrono accepts (`FixedOffset::east_opt`).
pub open spec fn valid_offset(offset: int) -> bool {
    -86400 < offset < 86400
}

/// What a `ZonedTime` may hold: an offset chrono accepts, an instant chrono
/// can represent, and a local date and time at that offset that chrono can
/// represent too (so that `DateTime::naive_local` does not panic).
pub open spec fn valid_zoned(timestamp: i64, offset: i32) -> bool {
    valid_offset(offset as int) && chrono_timestamp_in_range(timestamp) && chrono_local_in_range(
        timestamp,
        offset,
    )
}

impl ZonedTime {
    #[verifier::type_invariant]
    spec fn well_formed(self) -> bool {
        valid_zoned(self.timestamp, self.offset) && self.nanos < 1_000_000_000
    }

    /// The instant `timestamp` (a whole second) shown at `offset`, if chrono
    /// can represent it.
    pub fn new(timestamp: i64, offset: i32) -> (r: Option<ZonedTime>)
        ensures
            r is Some <==> valid_zoned(timestamp, offset),
            r matches Some(t) ==> t@ == (ZonedTimeView { timestamp, nanos: 0, offset }),
    {
        ZonedTime::new_with_nanos(timestamp, 0, offset)
    }

    /// The instant `nanos` nanoseconds after the second `timestamp`, shown at
    /// `offset`, if chrono can represent it and `nanos` is less than a second.
    pub fn new_with_nanos(timestamp: i64, nanos: u32, offset: i32) -> (r: Option<ZonedTime>)
        ensures
            r is Some <==> valid_zoned(timestamp, offset) && nanos < 1_000_000_000,
            r matches Some(t) ==> t@ == (ZonedTimeView { timestamp, nanos, offset }),
    {
        if nanos < 1_000_000_000 && -86400 < offset && offset < 86400 && timestamp_in_range(
            timestamp,
        ) && local_in_range(timestamp, offset) {
            Some(ZonedTime { timestamp, nanos, offset })
        } else {
            None
        }
    }

    /// Nanoseconds into the second.
    pub fn nanos(&self) -> (r: u32)
        ensures
            r == self@.nanos,
            r < 1_000_000_000,
    {
        proof {
            use_type_invariant(self);
        }
        self.nanos
    }

    /// Seconds since the UNIX epoch.
    pub fn timestamp(&self) -> (r: i64)
        ensures
            r == self@.timestamp,
    {
        self.timestamp
    }

    /// Offset from UTC, in seconds east.
    pub fn offset_seconds(&self) -> (r: i32)
        ensures
            r == self@.offset,
    {
        self.offset
    }

    /// The local calendar date of this instant (`DateTime::date_naive`).
    pub fn local_date(&self) -> (d: CivilDate)
        ensures
            (d.year, d.month, d.day) == chrono_local_date(self@.timestamp, self@.offset),
            date_holds(self@.offset, d, self@.timestamp),
            -262144 <= d.year <= 262143,
            1 <= d.month <= 12,
            1 <= d.day <= 31,
    {
        proof {
            use_type_invariant(self);
        }
        local_date_of(self.timestamp, self.offset)
    }
}

impl Clone for ZonedTime {
    fn clone(&self) -> (r: Self)
        ensures
            r@ == self@,
    {
        proof {
            use_type_invariant(self);
        }
        ZonedTime { timestamp: self.timestamp, nanos: self.nanos, offset: self.offset }
    }
}

/// A calendar date (chrono's `NaiveDate` as year, month and day).
#[derive(Clone, Copy, Debug, PartialEq, Eq)]
pub struct CivilDate {
    pub year: i32,
    pub month: u32,
    pub day: u32,
}

/// A time of day in whole minutes (chrono's `NaiveTime` with zero seconds).
#[derive(Clone, Copy, Debug, PartialEq, Eq)]
pub struct ClockTime {
    pub hour: u32,
    pub minute: u32,
}

/// The local date `d` holds the instant `timestamp` at `offset`: each time
/// of day `hour:minute` on `d` that chrono gives an instant for lies
/// `3600 * hour + 60 * minute` seconds after a start of day that is at most
/// `timestamp` and less than a day before it.
pub open spec fn date_holds(offset: i32, d: CivilDate, timestamp: i64) -> bool {
    forall|hour: u32, minute: u32|
        hour < 24 && minute < 60 ==> match #[trigger] chrono_local_timestamp(
            offset,
            d.year,
            d.month,
            d.day,
            hour,
            minute,
        ) {
            Some(t) => t - 3600 * hour - 60 * minute <= timestamp < t - 3600 * hour - 60 * minute
                + 86400,
            None => true,
        }
}

/// At a fixed offset, the same time of day on the next calendar day comes
/// exactly one day (86400 seconds) after `t`, where chrono gives it.
pub open spec fn next_day_one_day_later(
    offset: i32,
    year: i32,
    month: u32,
    day: u32,
    hour: u32,
    minute: u32,
    t: i64,
) -> bool {
    match day_after(CivilDate { year, month, day }) {
        Some(n) => match chrono_local_timestamp(offset, n.year, n.month, n.day, hour, minute) {
            Some(t2) => t2 == t + 86400,
            None => true,
        },
        None => true,
    }
}

/// `DateTime::from_timestamp(timestamp, 0)` shown at `offset`, then
/// `DateTime::date_naive`. The year, month and day are those of a chrono
/// `NaiveDate`, whose representation bounds them as stated. The date is that
/// of the local date and time `timestamp + offset` (`naive_local`), so the
/// instant lies within that local day (see [`date_holds`]).
#[verifier::external_body]
fn local_date_of(timestamp: i64, offset: i32) -> (d: CivilDate)
    requires
        valid_zoned(timestamp, offset),
    ensures
        (d.year, d.month, d.day) == chrono_local_date(timestamp, offset),
        date_holds(offset, d, timestamp),
        -262144 <= d.year <= 262143,
        1 <= d.month <= 12,
        1 <= d.day <= 31,
{
    let zone = chrono::FixedOffset::east_opt(offset).unwrap();
    let date = chrono::DateTime::from_timestamp(timestamp, 0).unwrap().with_timezone(&zone).date_naive();
    CivilDate { year: date.year(), month: date.month(), day: date.day() }
}

/// `FixedOffset::from_local_datetime(..).single()` for the local date and
/// time `year-month-day hour:minute:00` (built with `NaiveDate::from_ymd_opt`
/// and `NaiveDate::and_hms_opt`), at the offset `offset`
/// (`FixedOffset::east_opt`). A `DateTime` that chrono gives always has a
/// representable instant whose local date and time (the date and time asked
/// for) are representable too, and chrono gives none at an offset that
/// `FixedOffset::east_opt` refuses. A fixed offset has no daylight saving
/// time: the same time of day on the next calendar day is 86400 seconds
/// later (see [`next_day_one_day_later`]).
#[verifier::external_body]
fn chrono_local_datetime(
    offset: i32,
    year: i32,
    month: u32,
    day: u32,
    hour: u32,
    minute: u32,
) -> (r: Option<i64>)
    ensures
        r == chrono_local_timestamp(offset, year, month, day, hour, minute),
        r matches Some(t) ==> chrono_timestamp_in_range(t) && valid_offset(offset as int)
            && chrono_local_in_range(t, offset),
        r matches Some(t) ==> next_day_one_day_later(offset, year, month, day, hour, minute, t),
{
    let naive = chrono::NaiveDate::from_ymd_opt(year, month, day)?.and_hms_opt(hour, minute, 0)?;
    let zone = chrono::FixedOffset::east_opt(offset)?;
    zone.from_local_datetime(&naive).single().map(|t| t.timestamp())
}

/// The instant at which the local date and time `year-month-day hour:minute:00`
/// occurs at the fixed offset `offset`, or `None` where chrono refuses it.
pub fn local_datetime(offset: i32, year: i32, month: u32, day: u32, hour: u32, minute: u32) -> (r:
    Option<ZonedTime>)
    ensures
        match chrono_local_timestamp(offset, year, month, day, hour, minute) {
            Some(t) => r matches Some(z) && z@ == (ZonedTimeView { timestamp: t, nanos: 0, offset }),
            None => r is None,
        },
        r matches Some(z) ==> next_day_one_day_later(
            offset,
            year,
            month,
            day,
            hour,
            minute,
            z@.timestamp,
        ),
{
    match chrono_local_datetime(offset, year, month, day, hour, minute) {
        Some(t) => Some(ZonedTime { timestamp: t, nanos: 0, offset }),
        None => None,
    }
}

/// Years within chrono's `NaiveDate` range.
pub open spec fn chrono_year_in_range(year: int) -> bool {
    -262143 <= year <= 262142
}

/// A leap year of the proleptic Gregorian calendar.
pub open spec fn is_leap_year(year: int) -> bool {
    (year % 4 == 0 && year % 100 != 0) || year % 400 == 0
}

/// The number of days in a month of the proleptic Gregorian calendar.
pub open spec fn days_in_month(year: int, month: int) -> int {
    if month == 2 {
        if is_leap_year(year) {
            29
        } else {
            28
        }
    } else if month == 4 || month == 6 || month == 9 || month == 11 {
        30
    } else {
        31
    }
}

/// A date that `NaiveDate::from_ymd_opt` accepts.
pub open spec fn valid_date(year: int, month: int, day: int) -> bool {
    chrono_year_in_range(year) && 1 <= month <= 12 && 1 <= day <= days_in_month(year, month)
}

/// The day after a valid date, if chrono can represent it.
pub open spec fn day_after(d: CivilDate) -> Option<CivilDate> {
    if !valid_date(d.year as int, d.month as int, d.day as int) {
        None
    } else if (d.day as int) < days_in_month(d.year as int, d.month as int) {
        Some(CivilDate { year: d.year, month: d.month, day: (d.day + 1) as u32 })
    } else if d.month < 12 {
        Some(CivilDate { year: d.year, month: (d.month + 1) as u32, day: 1 })
    } else if d.year < 262142 {
        Some(CivilDate { year: (d.year + 1) as i32, month: 1, day: 1 })
    } else {
        None
    }
}

/// Whether `year` is a leap year (see [`is_leap_year`]).
fn leap_year(year: i32) -> (r: bool)
    requires
        chrono_year_in_range(year as int),
    ensures
        r == is_leap_year(year as int),
{
    // A shift by a multiple of 400 keeps the year's place in the cycle.
    let shifted: u32 = (year + 400_000) as u32;
    assert(shifted % 4 == (year as int) % 4);
    assert(shifted % 100 == (year as int) % 100);
    assert(shifted % 400 == (year as int) % 400);
    (shifted % 4 == 0 && shifted % 100 != 0) || shifted % 400 == 0
}

/// The number of days in a month (see [`days_in_month`]).
fn month_length(year: i32, month: u32) -> (n: u32)
    requires
        chrono_year_in_range(year as int),
    ensures
        n == days_in_month(year as int, month as int),
{
    if month == 2 {
        if leap_year(year) {
            29
        } else {
            28
        }
    } else if month == 4 || month == 6 || month == 9 || month == 11 {
        30
    } else {
        31
    }
}

/// The next calendar day (see [`day_after`]): `None` for a date chrono does
/// not accept and for its last day.
pub(crate) fn next_day(d: CivilDate) -> (r: Option<CivilDate>)
    ensures
        r == day_after(d),
{
    if d.year < -262143 || d.year > 262142 || d.month < 1 || d.month > 12 || d.day < 1 {
        return None;
    }
    let length = month_length(d.year, d.month);
    if d.day > length {
        None
    } else if d.day < length {
        Some(CivilDate { year: d.year, month: d.month, day: d.day + 1 })
    } else if d.month < 12 {
        Some(CivilDate { year: d.year, month: d.month + 1, day: 1 })
    } else if d.year < 262142 {
        Some(CivilDate { year: d.year + 1, month: 1, day: 1 })
    } else {
        None
    }
}

/// `NaiveTime::parse_from_str(value, "%H:%M")`, as hour and minute. A
/// `NaiveTime` has an hour below 24 and a minute below 60.
#[verifier::external_body]
fn chrono_parse_time(value: &str) -> (r: Option<ClockTime>)
    ensures
        match chrono_parse_hour_minute(value@) {
            Some(hm) => r == Some(ClockTime { hour: hm.0, minute: hm.1 }),
            None => r is None,
        },
        r matches Some(t) ==> t.hour < 24 && t.minute < 60,
{
    let t = chrono::NaiveTime::parse_from_str(value, "%H:%M").ok()?;
    Some(ClockTime { hour: t.hour(), minute: t.minute() })
}

/// Reads an `HH:MM` time of day (`NaiveTime::parse_from_str` with `"%H:%M"`).
pub fn parse_time(value: &[char]) -> (r: Option<ClockTime>)
    ensures
        match chrono_parse_hour_minute(value@) {
            Some(hm) => r == Some(ClockTime { hour: hm.0, minute: hm.1 }),
            None => r is None,
        },
        r matches Some(t) ==> t.hour < 24 && t.minute < 60,
{
    let s = crate::text::string_from_chars(value);
    chrono_parse_time(s.as_str())
}

} // verus!
