//! Weekdays and ISO 8601 week-dates, derived from Rata Die day counts.

use vstd::prelude::*;

use crate::model::{
    date_of, iso_week_of, iso_weeks_in_year, iso_year_of, rd_of, rd_of_isoweekdate, valid_date,
    valid_isoweekdate, weekday_of, year_days_before, DAY_OFFSET, RD_MAX, RD_MIN, YEAR_MAX,
    YEAR_MIN,
};
use crate::era::{lemma_month_table, lemma_year_days_grow};
use crate::gregorian::{date_to_rd, is_leap_year, rd_to_date};
use crate::laws::lemma_date_to_rd_to_date;
use vstd::arithmetic::div_mod::{
    lemma_div_is_ordered, lemma_fundamental_div_mod, lemma_fundamental_div_mod_converse,
    lemma_mod_bound, lemma_mod_multiples_vanish,
};

verus! {

/// Convert a Rata Die day count to a day of week, 1 = Monday .. 7 = Sunday.
///
/// A plain modulus; the day count is shifted to an unsigned value first,
/// by a multiple of 7 plus one, which moves the remainder by one.
pub fn rd_to_weekday(n: i32) -> (r: u8)
    requires
        RD_MIN <= n <= RD_MAX,
    ensures
        r as int == weekday_of(n as int),
        1 <= r <= 7,
{
    let nu: u32 = (n + DAY_OFFSET) as u32;
    proof {
        lemma_mod_multiples_vanish(76699351, n as int + 3, 7);
        lemma_mod_bound(n as int + 3, 7);
    }
    ((nu + 2) % 7 + 1) as u8
}

/// Convert a Gregorian date to a day of week, 1 = Monday .. 7 = Sunday.
///
/// Converts the date to Rata Die first; callers that already hold a day
/// count should prefer `rd_to_weekday` on it directly.
pub fn date_to_weekday(date: (i32, u8, u8)) -> (r: u8)
    requires
        valid_date(date.0 as int, date.1 as int, date.2 as int),
    ensures
        r as int == weekday_of(rd_of(date.0 as int, date.1 as int, date.2 as int)),
        1 <= r <= 7,
{
    let rd = date_to_rd(date);
    rd_to_weekday(rd)
}

/// Convert a Rata Die day count to an ISO week-date
/// `(iso_year, week, weekday)`.
///
/// The Thursday of the week holding the day decides the ISO year; the week
/// number counts whole weeks from that year's January 1.
pub fn rd_to_isoweekdate(rd: i32) -> (r: (i32, u8, u8))
    requires
        RD_MIN <= rd <= RD_MAX,
    ensures
        r.0 as int == iso_year_of(rd as int),
        r.1 as int == iso_week_of(rd as int),
        r.2 as int == weekday_of(rd as int),
        YEAR_MIN <= r.0 <= YEAR_MAX,
        1 <= r.1 <= 53,
        1 <= r.2 <= 7,
{
    let wd = rd_to_weekday(rd);
    proof {
        lemma_fundamental_div_mod(rd as int + 3, 7);
        lemma_mod_bound(rd as int + 3, 7);
        lemma_div_is_ordered(RD_MIN as int + 3, rd as int + 3, 7);
        lemma_div_is_ordered(rd as int + 3, RD_MAX as int + 3, 7);
        assert((RD_MIN as int + 3) / 7 == -76699307);
        assert((RD_MAX as int + 3) / 7 == 76689185);
    }
    let t: i32 = rd + 4 - wd as i32;
    let (y, _tm, _td) = rd_to_date(t);
    proof {
        lemma_month_table();
        let yi: int = y as int;
        let m2: int = date_of(t as int).1;
        let d2: int = date_of(t as int).2;
        lemma_date_to_rd_to_date(yi, 1, 1);
        if m2 >= 3 {
            lemma_year_days_grow(yi - 1, yi);
            lemma_fundamental_div_mod(yi - 1, 4);
            lemma_mod_bound(yi - 1, 4);
            if (yi - 1) % 4 <= 2 {
                lemma_fundamental_div_mod_converse(yi, 4, (yi - 1) / 4, (yi - 1) % 4 + 1);
            } else {
                lemma_fundamental_div_mod_converse(yi, 4, (yi - 1) / 4 + 1, 0);
            }
            lemma_fundamental_div_mod(yi - 1, 400);
            lemma_mod_bound(yi - 1, 400);
            if (yi - 1) % 400 <= 398 {
                lemma_fundamental_div_mod_converse(yi, 400, (yi - 1) / 400, (yi - 1) % 400 + 1);
            } else {
                lemma_fundamental_div_mod_converse(yi, 400, (yi - 1) / 400 + 1, 0);
            }
            lemma_div_is_ordered(yi - 1, yi, 100);
        }
        assert(0 <= t as int - rd_of(y as int, 1, 1) <= 366);
    }
    let f: i32 = date_to_rd((y, 1, 1));
    let w: u32 = ((t - f) as u32) / 7 + 1;
    (y, w as u8, wd)
}

/// Convert an ISO week-date `(iso_year, week, weekday)` to a Rata Die day
/// count.
///
/// Walks back from January 4 of the ISO year, which always lies in week 1,
/// to the Monday of week 1, then forward by whole weeks and days.
pub fn isoweekdate_to_rd(iso: (i32, u8, u8)) -> (rd: i32)
    requires
        valid_isoweekdate(iso.0 as int, iso.1 as int, iso.2 as int),
    ensures
        rd as int == rd_of_isoweekdate(iso.0 as int, iso.1 as int, iso.2 as int),
        RD_MIN <= rd <= RD_MAX,
{
    let (y, w, d) = iso;
    proof {
        let yi: int = y as int;
        lemma_month_table();
        lemma_date_to_rd_to_date(yi, 1, 4);
        lemma_year_days_grow(YEAR_MIN as int, yi - 1);
        lemma_year_days_grow(yi - 1, YEAR_MAX as int);
        assert(year_days_before(YEAR_MIN as int) == -536175625);
        assert(year_days_before(YEAR_MAX as int) == 537543458);
    }
    let f: i32 = date_to_rd((y, 1, 4));
    let wd4 = rd_to_weekday(f);
    f - wd4 as i32 + 7 * (w as i32 - 1) + d as i32
}

/// Convert a Gregorian date to an ISO week-date
/// `(iso_year, week, weekday)`.
pub fn date_to_isoweekdate(date: (i32, u8, u8)) -> (r: (i32, u8, u8))
    requires
        valid_date(date.0 as int, date.1 as int, date.2 as int),
    ensures
        ({
            let rd = rd_of(date.0 as int, date.1 as int, date.2 as int);
            &&& r.0 as int == iso_year_of(rd)
            &&& r.1 as int == iso_week_of(rd)
            &&& r.2 as int == weekday_of(rd)
        }),
        1 <= r.1 <= 53,
        1 <= r.2 <= 7,
{
    let rd = date_to_rd(date);
    rd_to_isoweekdate(rd)
}

/// Convert an ISO week-date `(iso_year, week, weekday)` to a Gregorian
/// date.
pub fn isoweekdate_to_date(iso: (i32, u8, u8)) -> (r: (i32, u8, u8))
    requires
        valid_isoweekdate(iso.0 as int, iso.1 as int, iso.2 as int),
    ensures
        ({
            let rd = rd_of_isoweekdate(iso.0 as int, iso.1 as int, iso.2 as int);
            &&& r.0 as int == date_of(rd).0
            &&& r.1 as int == date_of(rd).1
            &&& r.2 as int == date_of(rd).2
        }),
        valid_date(r.0 as int, r.1 as int, r.2 as int),
{
    let rd = isoweekdate_to_rd(iso);
    rd_to_date(rd)
}

/// Number of ISO weeks in the given year, 52 or 53.
///
/// A year has 53 ISO weeks exactly when its January 1 or December 31 is a
/// Thursday, read off the weekday of December 31 and the leap-year bit.
pub fn isoweeks_in_year(y: i32) -> (r: u8)
    requires
        YEAR_MIN <= y <= YEAR_MAX,
    ensures
        r as int == iso_weeks_in_year(y as int),
        r == 52 || r == 53,
{
    let wd = date_to_weekday((y, 12, 31));
    let leap = is_leap_year(y);
    if wd == 4 || (leap && wd == 5) {
        53
    } else {
        52
    }
}

} // verus!
