//! The mathematical model of the calendar.
//!
//! All contracts in this crate are stated against the spec functions in this
//! module. Days are counted in "Rata Die": day 0 is 1970-01-01 (the Unix
//! epoch) of the proleptic Gregorian calendar. Internally the model works on
//! a March-based year, in which January and February are months 13 and 14 of
//! the previous year, so that the leap day is the last day of the year.
//!
//! Division and remainder below are the Euclidean operations of spec
//! arithmetic: the remainder of a division by a positive number is always
//! non-negative, so the formulas hold on both sides of the epoch.

use vstd::prelude::*;

verus! {

/// Earliest year the conversions support.
pub const YEAR_MIN: i32 = -1467999;

/// Latest year the conversions support.
pub const YEAR_MAX: i32 = 1471744;

/// Rata Die of `(YEAR_MIN, 1, 1)`, the earliest supported day.
pub const RD_MIN: i32 = -536895152;

/// Rata Die of `(YEAR_MAX, 12, 31)`, the latest supported day.
pub const RD_MAX: i32 = 536824295;

/// First second of the earliest supported day: `RD_MIN * 86400`.
pub const RD_SECONDS_MIN: i64 = -46387741132800;

/// Last second of the latest supported day: `RD_MAX * 86400 + 86399`.
pub const RD_SECONDS_MAX: i64 = 46381619174399;

/// Years added to shift a year into unsigned range: 3670 eras of 400 years
/// each, placing the epoch near the middle of the shifted value space.
pub(crate) const YEAR_OFFSET: i32 = 1468000;

/// Days added to shift a day count into unsigned range: 3670 eras of
/// 146097 days each, plus the 719468 days from 0000-03-01 to the epoch.
pub(crate) const DAY_OFFSET: i32 = 536895458;

/// Seconds added to shift a total-seconds value into unsigned range:
/// `DAY_OFFSET` days of 86400 seconds.
pub(crate) const SECS_OFFSET: i64 = 46387767571200;

/// A year is a leap year when it is divisible by 4, unless it is divisible
/// by 100 and not by 400.
pub open spec fn leap_year(y: int) -> bool {
    y % 4 == 0 && (y % 100 != 0 || y % 400 == 0)
}

/// Number of days in month `m` of year `y` (`m` in 1..=12).
pub open spec fn month_length(y: int, m: int) -> int {
    if m == 2 {
        if leap_year(y) {
            29
        } else {
            28
        }
    } else if m == 4 || m == 6 || m == 9 || m == 11 {
        30
    } else {
        31
    }
}

/// A civil date the conversions accept: the year is in range, the month is
/// 1..=12 and the day fits the month.
pub open spec fn valid_date(y: int, m: int, d: int) -> bool {
    &&& YEAR_MIN <= y <= YEAR_MAX
    &&& 1 <= m <= 12
    &&& 1 <= d <= month_length(y, m)
}

/// Days between March 1 and the first day of March-based month `m`
/// (`m` in 3..=14; month 3 is March, month 14 is February).
pub open spec fn month_days_before(m: int) -> int {
    (153 * m - 457) / 5
}

/// Days between 0000-03-01 and the March 1 of March-based year `yy`.
pub open spec fn year_days_before(yy: int) -> int {
    365 * yy + yy / 4 - yy / 100 + yy / 400
}

/// The March-based year that holds month `m` of civil year `y`.
pub open spec fn shifted_year(y: int, m: int) -> int {
    if m < 3 {
        y - 1
    } else {
        y
    }
}

/// The March-based number of civil month `m`.
pub open spec fn shifted_month(m: int) -> int {
    if m < 3 {
        m + 12
    } else {
        m
    }
}

/// Rata Die of the civil date `(y, m, d)`: days from 0000-03-01 to the date,
/// re-centred so that 1970-01-01 is day 0 (0000-03-01 is day -719468).
pub open spec fn rd_of(y: int, m: int, d: int) -> int {
    year_days_before(shifted_year(y, m)) + month_days_before(shifted_month(m)) + (d - 1)
        - 719468
}

/// The civil date `(year, month, day)` of Rata Die `rd`: the inverse of
/// `rd_of`, written with the Euclidean affine steps of the Neri-Schneider
/// decomposition. `c` is the March-based century, `q` the year of the
/// century, `dy` the day of the March-based year, `m0` the March-based month.
pub open spec fn date_of(rd: int) -> (int, int, int) {
    let n = 4 * (rd + 719468) + 3;
    let c = n / 146097;
    let r = n % 146097;
    let n1 = 4 * (r / 4) + 3;
    let q = n1 / 1461;
    let dy = (n1 % 1461) / 4;
    let m0 = (5 * dy + 461) / 153;
    let d0 = dy - month_days_before(m0);
    let yy = 100 * c + q;
    if m0 > 12 {
        (yy + 1, m0 - 12, d0 + 1)
    } else {
        (yy, m0, d0 + 1)
    }
}

/// Weekday of Rata Die `rd`, 1 = Monday .. 7 = Sunday. Day 0 (1970-01-01)
/// is a Thursday.
pub open spec fn weekday_of(rd: int) -> int {
    (rd + 3) % 7 + 1
}

/// The ISO week-year of Rata Die `rd`: the civil year of the Thursday of
/// the week holding `rd`, per the ISO 8601 rule that week 1 of a year is
/// the week containing the year's first Thursday.
pub open spec fn iso_year_of(rd: int) -> int {
    date_of(rd + 4 - weekday_of(rd)).0
}

/// The ISO week number of Rata Die `rd`: one more than the number of
/// whole weeks between the January 1 of the ISO week-year and the
/// Thursday of `rd`'s week.
pub open spec fn iso_week_of(rd: int) -> int {
    (rd + 4 - weekday_of(rd) - rd_of(iso_year_of(rd), 1, 1)) / 7 + 1
}

/// Rata Die of the ISO week-date `(y, w, d)`: January 4 always lies in
/// week 1, so the Monday of week 1 is `jan4 - (weekday_of(jan4) - 1)`.
pub open spec fn rd_of_isoweekdate(y: int, w: int, d: int) -> int {
    let jan4 = rd_of(y, 1, 4);
    jan4 - weekday_of(jan4) + 7 * (w - 1) + d
}

/// Number of ISO weeks in year `y`: 53 exactly when January 1 or
/// December 31 falls on a Thursday, read off the weekday of December 31.
pub open spec fn iso_weeks_in_year(y: int) -> int {
    let wd = weekday_of(rd_of(y, 12, 31));
    if wd == 4 || (leap_year(y) && wd == 5) {
        53
    } else {
        52
    }
}

/// An ISO week-date the conversions accept. The first and last supported
/// civil years are excluded: their outer ISO weeks reach past the
/// supported day range.
pub open spec fn valid_isoweekdate(y: int, w: int, d: int) -> bool {
    &&& YEAR_MIN < y < YEAR_MAX
    &&& 1 <= w <= iso_weeks_in_year(y)
    &&& 1 <= d <= 7
}

/// Day count of a total-seconds value, rounding toward minus infinity.
pub open spec fn days_of_secs(secs: int) -> int {
    secs / 86400
}

/// Hour of day of a total-seconds value, always in 0..=23.
pub open spec fn hour_of_secs(secs: int) -> int {
    (secs % 86400) / 3600
}

/// Minute of hour of a total-seconds value, always in 0..=59.
pub open spec fn minute_of_secs(secs: int) -> int {
    ((secs % 86400) / 60) % 60
}

/// Second of minute of a total-seconds value, always in 0..=59.
pub open spec fn second_of_secs(secs: int) -> int {
    (secs % 86400) % 60
}

/// Total seconds of a `(days, hours, minutes, seconds)` decomposition.
pub open spec fn secs_of_dhms(d: int, h: int, m: int, s: int) -> int {
    86400 * d + 3600 * h + 60 * m + s
}

/// A day-seconds decomposition the conversions accept.
pub open spec fn valid_dhms(d: int, h: int, m: int, s: int) -> bool {
    &&& RD_MIN <= d <= RD_MAX
    &&& valid_time(h, m, s)
}

/// A time of day: hours 0..=23, minutes and seconds 0..=59.
pub open spec fn valid_time(h: int, m: int, s: int) -> bool {
    &&& 0 <= h <= 23
    &&& 0 <= m <= 59
    &&& 0 <= s <= 59
}

/// A total-seconds value the conversions accept.
pub open spec fn valid_secs(secs: int) -> bool {
    RD_SECONDS_MIN <= secs <= RD_SECONDS_MAX
}

} // verus!
