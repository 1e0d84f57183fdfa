//! The laws the conversions obey, proved once over the model.

use vstd::prelude::*;

use crate::instant::SystemTime;
use crate::model::{
    date_of, days_of_secs, hour_of_secs, iso_week_of, iso_weeks_in_year, iso_year_of, leap_year,
    minute_of_secs,
    month_days_before, month_length, rd_of, rd_of_isoweekdate, second_of_secs, secs_of_dhms,
    valid_date, valid_dhms, valid_isoweekdate, valid_secs, weekday_of, year_days_before,
    RD_MAX, RD_MIN, RD_SECONDS_MAX, RD_SECONDS_MIN, YEAR_MAX, YEAR_MIN,
};
use crate::era::{
    lemma_month_of_day, lemma_month_table, lemma_rd_decompose, lemma_year_days_grow,
    lemma_year_days_split, lemma_year_gap,
};
use vstd::arithmetic::div_mod::{
    lemma_div_denominator, lemma_div_is_ordered, lemma_fundamental_div_mod,
    lemma_fundamental_div_mod_converse, lemma_mod_bound,
};

verus! {

/// Round trip from a day count: every Rata Die in range maps to a valid
/// civil date, and that date maps back to the same Rata Die.
pub proof fn lemma_rd_to_date_to_rd(rd: int)
    requires
        RD_MIN <= rd <= RD_MAX,
    ensures
        valid_date(date_of(rd).0, date_of(rd).1, date_of(rd).2),
        rd_of(date_of(rd).0, date_of(rd).1, date_of(rd).2) == rd,
{
    let z: int = rd + 719468;
    lemma_rd_decompose(z);
    let n: int = 4 * z + 3;
    let c: int = n / 146097;
    let r: int = n % 146097;
    let j: int = r / 4;
    let n1: int = 4 * j + 3;
    let q: int = n1 / 1461;
    let dy: int = (n1 % 1461) / 4;
    lemma_month_of_day(dy);
    lemma_month_table();
    let m0: int = (5 * dy + 461) / 153;
    let d0: int = dy - month_days_before(m0);
    let yy: int = 100 * c + q;
    let y: int = if m0 > 12 { yy + 1 } else { yy };
    let m: int = if m0 > 12 { m0 - 12 } else { m0 };
    let d: int = d0 + 1;

    // The recovered day fits its month.
    if m0 <= 13 {
        if m0 == 3 {
            assert(d <= month_length(y, m));
        } else if m0 == 4 {
            assert(d <= month_length(y, m));
        } else if m0 == 5 {
            assert(d <= month_length(y, m));
        } else if m0 == 6 {
            assert(d <= month_length(y, m));
        } else if m0 == 7 {
            assert(d <= month_length(y, m));
        } else if m0 == 8 {
            assert(d <= month_length(y, m));
        } else if m0 == 9 {
            assert(d <= month_length(y, m));
        } else if m0 == 10 {
            assert(d <= month_length(y, m));
        } else if m0 == 11 {
            assert(d <= month_length(y, m));
        } else if m0 == 12 {
            assert(d <= month_length(y, m));
        } else {
            assert(m0 == 13);
            assert(d <= month_length(y, m));
        }
    } else {
        // February of the following civil year: 29 days only after a year
        // of century (and century, at the era edge) divisible by 4.
        assert(m0 == 14 && m == 2);
        if dy == 365 {
            if q <= 98 {
                let a: int = q / 4;
                lemma_fundamental_div_mod(q, 4);
                lemma_mod_bound(q, 4);
                lemma_fundamental_div_mod_converse(y, 4, 25 * c + a + 1, 0);
                lemma_fundamental_div_mod_converse(y, 100, c, q + 1);
                assert(leap_year(y));
            } else {
                let g: int = c / 4;
                lemma_fundamental_div_mod(c, 4);
                lemma_mod_bound(c, 4);
                lemma_fundamental_div_mod_converse(y, 400, g + 1, 0);
                lemma_fundamental_div_mod_converse(y, 4, 100 * g + 100, 0);
                assert(leap_year(y));
            }
            assert(d <= month_length(y, m));
        } else {
            assert(d0 <= 27);
            assert(d <= month_length(y, m));
        }
    }

    // The recovered year is in range.
    assert(year_days_before(YEAR_MIN - 1) == -536175990);
    assert(year_days_before(YEAR_MAX as int) == 537543458);
    assert(year_days_before(YEAR_MAX + 1) == 537543823);
    if yy <= YEAR_MIN - 2 {
        lemma_year_days_grow(yy, YEAR_MIN - 1);
        assert(false);
    }
    if yy == YEAR_MIN - 1 {
        assert(dy >= 306);
        assert(m0 >= 13);
    }
    if yy >= YEAR_MAX + 1 {
        lemma_year_days_grow(YEAR_MAX + 1, yy);
        assert(false);
    }
    if yy == YEAR_MAX {
        assert(dy <= 305);
        assert(m0 <= 12);
    }
    assert(YEAR_MIN <= y <= YEAR_MAX);
    assert(valid_date(y, m, d));
    assert(rd_of(y, m, d) == rd);
}

/// Round trip from a civil date: every valid date maps to a day count in
/// range, and that day count maps back to the same date.
pub proof fn lemma_date_to_rd_to_date(y: int, m: int, d: int)
    requires
        valid_date(y, m, d),
    ensures
        RD_MIN <= rd_of(y, m, d) <= RD_MAX,
        date_of(rd_of(y, m, d)) == (y, m, d),
{
    lemma_month_table();
    let yy: int = if m < 3 { y - 1 } else { y };
    let m0: int = if m < 3 { m + 12 } else { m };
    let d0: int = d - 1;
    let nn: int = month_days_before(m0) + d0;
    let z: int = year_days_before(yy) + nn;
    let rd: int = rd_of(y, m, d);
    assert(rd == z - 719468);

    lemma_fundamental_div_mod(yy, 100);
    lemma_mod_bound(yy, 100);
    let c: int = yy / 100;
    let q: int = yy % 100;
    lemma_fundamental_div_mod(c, 4);
    lemma_mod_bound(c, 4);
    lemma_fundamental_div_mod(q, 4);
    lemma_mod_bound(q, 4);
    let g: int = c / 4;
    let h: int = c % 4;
    let a: int = q / 4;
    let e: int = q % 4;
    lemma_year_days_split(c, q);

    // Day-of-year bounds, and the modulus of the affine month step for the
    // months that have a 31st day.
    let u: int = (153 * m0 - 457) % 5;
    lemma_fundamental_div_mod(153 * m0 - 457, 5);
    lemma_mod_bound(153 * m0 - 457, 5);
    if m == 1 {
        assert((153 * 13 - 457) % 5 == 2);
        assert(306 <= nn <= 336);
    } else if m == 2 {
        assert(337 <= nn <= 365);
    } else if m == 3 {
        assert((153 * 3 - 457) % 5 == 2);
        assert(0 <= nn <= 30);
    } else if m == 4 {
        assert(31 <= nn <= 60);
    } else if m == 5 {
        assert((153 * 5 - 457) % 5 == 3);
        assert(61 <= nn <= 91);
    } else if m == 6 {
        assert(92 <= nn <= 121);
    } else if m == 7 {
        assert((153 * 7 - 457) % 5 == 4);
        assert(122 <= nn <= 152);
    } else if m == 8 {
        assert((153 * 8 - 457) % 5 == 2);
        assert(153 <= nn <= 183);
    } else if m == 9 {
        assert(184 <= nn <= 213);
    } else if m == 10 {
        assert((153 * 10 - 457) % 5 == 3);
        assert(214 <= nn <= 244);
    } else if m == 11 {
        assert(245 <= nn <= 274);
    } else {
        assert(m == 12);
        assert((153 * 12 - 457) % 5 == 4);
        assert(275 <= nn <= 305);
    }
    assert(0 <= 5 * d0 + 4 - u < 153);
    assert(0 <= nn <= 365);

    // A 366th day means February 29, so the civil year is a leap year; that
    // forces the year of century (and at the era edge the century) to sit
    // just before a multiple of 4.
    if nn == 365 {
        assert(m == 2 && d == 29 && y == yy + 1);
        assert(leap_year(y));
        if q <= 98 {
            if e <= 2 {
                lemma_fundamental_div_mod_converse(y, 4, 25 * c + a, e + 1);
                assert(false);
            }
        } else {
            assert(q == 99);
            lemma_fundamental_div_mod_converse(y, 100, c + 1, 0);
            if h <= 2 {
                lemma_fundamental_div_mod_converse(y, 400, g, 100 * (h + 1));
                assert(false);
            }
        }
        assert(e == 3);
    }

    // Reassemble the division chain of `date_of` around the explicit
    // quotients and remainders.
    let rr: int = 1461 * q + 4 * nn + 3 - h - e;
    assert(4 * z + 3 == 146097 * c + rr);
    assert(0 <= rr < 146097);
    lemma_fundamental_div_mod_converse(4 * z + 3, 146097, c, rr);
    assert(rr == 4 * (365 * q + a + nn) + (3 - h));
    lemma_fundamental_div_mod_converse(rr, 4, 365 * q + a + nn, 3 - h);
    let j: int = 365 * q + a + nn;
    let n1: int = 4 * j + 3;
    assert(n1 == 1461 * q + (4 * nn + (3 - e)));
    assert(0 <= 4 * nn + (3 - e) < 1461);
    lemma_fundamental_div_mod_converse(n1, 1461, q, 4 * nn + (3 - e));
    lemma_fundamental_div_mod_converse(4 * nn + (3 - e), 4, nn, 3 - e);
    assert(5 * nn + 461 == 153 * m0 + (5 * d0 + 4 - u));
    lemma_fundamental_div_mod_converse(5 * nn + 461, 153, m0, 5 * d0 + 4 - u);
    assert(date_of(rd) == (y, m, d));

    // The day count stays in range.
    assert(year_days_before(YEAR_MIN - 1) == -536175990);
    assert(year_days_before(YEAR_MIN as int) == -536175625);
    assert(year_days_before(YEAR_MAX as int) == 537543458);
    if yy == YEAR_MIN - 1 {
        assert(nn >= 306);
        assert(rd >= RD_MIN);
    } else {
        lemma_year_days_grow(YEAR_MIN as int, yy);
        assert(rd >= RD_MIN);
    }
    if yy == YEAR_MAX {
        assert(m >= 3);
        assert(nn <= 305);
        assert(rd <= RD_MAX);
    } else {
        lemma_year_days_grow(yy, YEAR_MAX as int);
        assert(rd <= RD_MAX);
    }
}

/// Round trip through the ISO week-date: the ISO year, week and weekday
/// read off a day count lead back to the same day count.
pub proof fn lemma_rd_to_isoweekdate_to_rd(rd: int)
    requires
        RD_MIN <= rd <= RD_MAX,
    ensures
        rd_of_isoweekdate(iso_year_of(rd), iso_week_of(rd), weekday_of(rd)) == rd,
{
    lemma_fundamental_div_mod(rd + 3, 7);
    lemma_mod_bound(rd + 3, 7);
    let t: int = rd + 4 - weekday_of(rd);
    let f: int = rd_of(iso_year_of(rd), 1, 1);
    assert(rd_of(iso_year_of(rd), 1, 4) == f + 3);
    lemma_fundamental_div_mod(f + 6, 7);
    lemma_mod_bound(f + 6, 7);
    lemma_fundamental_div_mod_converse(
        t - f,
        7,
        (rd + 3) / 7 - (f + 6) / 7,
        6 - (f + 6) % 7,
    );
}

/// Every valid date of a civil year lies between that year's January 1 and
/// December 31.
pub(crate) proof fn lemma_rd_year_span(y: int, m: int, d: int)
    requires
        1 <= m <= 12,
        1 <= d <= 31,
    ensures
        rd_of(y, 1, 1) <= rd_of(y, m, d) <= rd_of(y, 12, 31),
{
    lemma_month_table();
    lemma_year_days_grow(y - 1, y);
}

/// A day count between a year's January 1 and its December 31 belongs to
/// that year.
pub(crate) proof fn lemma_year_of_rd(y: int, rd: int)
    requires
        YEAR_MIN <= y <= YEAR_MAX,
        rd_of(y, 1, 1) <= rd <= rd_of(y, 12, 31),
    ensures
        date_of(rd).0 == y,
{
    lemma_month_table();
    lemma_date_to_rd_to_date(y, 1, 1);
    lemma_date_to_rd_to_date(y, 12, 31);
    lemma_rd_to_date_to_rd(rd);
    let y2: int = date_of(rd).0;
    let m2: int = date_of(rd).1;
    let d2: int = date_of(rd).2;
    lemma_rd_year_span(y2, m2, d2);
    if y2 < y - 1 {
        lemma_year_days_grow(y2, y - 1);
        assert(false);
    }
    if y2 == y - 1 {
        assert(false);
    }
    if y2 > y + 1 {
        lemma_year_days_grow(y, y2 - 1);
        assert(false);
    }
    if y2 == y + 1 {
        assert(false);
    }
}

/// Round trip through the ISO week-date, the other way: a valid ISO
/// week-date maps to a day count whose ISO year, week and weekday are the
/// ones it came from. In particular a week number is accepted exactly up
/// to `iso_weeks_in_year`, and week 53 of a 53-week year still lands in
/// that year.
pub proof fn lemma_isoweekdate_to_rd_to_isoweekdate(y: int, w: int, d: int)
    requires
        valid_isoweekdate(y, w, d),
    ensures
        weekday_of(rd_of_isoweekdate(y, w, d)) == d,
        iso_year_of(rd_of_isoweekdate(y, w, d)) == y,
        iso_week_of(rd_of_isoweekdate(y, w, d)) == w,
{
    lemma_month_table();
    let jan4: int = rd_of(y, 1, 4);
    let rho: int = (jan4 + 3) % 7;
    let jj: int = (jan4 + 3) / 7;
    lemma_fundamental_div_mod(jan4 + 3, 7);
    lemma_mod_bound(jan4 + 3, 7);
    let rd: int = rd_of_isoweekdate(y, w, d);
    lemma_fundamental_div_mod_converse(rd + 3, 7, jj + w - 1, d - 1);
    assert(weekday_of(rd) == d);
    let t: int = rd + 4 - d;
    let leap: int = if leap_year(y) {
        1int
    } else {
        0int
    };
    lemma_year_gap(y);
    assert(rd_of(y, 1, 1) == jan4 - 3);
    assert(rd_of(y, 12, 31) == jan4 + 361 + leap);
    if 4 + rho + leap <= 6 {
        lemma_fundamental_div_mod_converse(rd_of(y, 12, 31) + 3, 7, jj + 51, 4 + rho + leap);
    } else {
        lemma_fundamental_div_mod_converse(rd_of(y, 12, 31) + 3, 7, jj + 52, rho + leap - 3);
    }
    assert(rd_of(y, 1, 1) <= t <= rd_of(y, 12, 31));
    lemma_year_of_rd(y, t);
    lemma_fundamental_div_mod_converse(t - (jan4 - 3), 7, w - 1, 6 - rho);
}

/// The ISO week number read off a day count is between 1 and the number
/// of ISO weeks of its ISO year: week 53 only appears in years whose
/// December 31 (or January 1) is a Thursday.
pub proof fn lemma_iso_week_in_year(rd: int)
    requires
        RD_MIN <= rd <= RD_MAX,
    ensures
        1 <= weekday_of(rd) <= 7,
        1 <= iso_week_of(rd) <= iso_weeks_in_year(iso_year_of(rd)),
{
    lemma_month_table();
    lemma_fundamental_div_mod(rd + 3, 7);
    lemma_mod_bound(rd + 3, 7);
    let k: int = (rd + 3) / 7;
    let t: int = rd + 4 - weekday_of(rd);
    assert(t == 7 * k);
    lemma_div_is_ordered(RD_MIN + 3, rd + 3, 7);
    lemma_div_is_ordered(rd + 3, RD_MAX + 3, 7);
    assert((RD_MIN + 3) / 7 == -76699307);
    assert((RD_MAX + 3) / 7 == 76689185);
    lemma_rd_to_date_to_rd(t);
    let y: int = date_of(t).0;
    lemma_rd_year_span(y, date_of(t).1, date_of(t).2);
    let f: int = rd_of(y, 1, 1);
    let rho: int = (f + 6) % 7;
    let jj: int = (f + 6) / 7;
    lemma_fundamental_div_mod(f + 6, 7);
    lemma_mod_bound(f + 6, 7);
    let leap: int = if leap_year(y) {
        1int
    } else {
        0int
    };
    lemma_year_gap(y);
    assert(rd_of(y, 12, 31) == f + 364 + leap);
    lemma_fundamental_div_mod_converse(t - f, 7, k - jj, 6 - rho);
    if rho + leap >= 6 {
        lemma_fundamental_div_mod_converse(rd_of(y, 12, 31) + 3, 7, jj + 52, rho + leap - 3);
    }
}

/// Round trip through the day-seconds split: combining a valid
/// `(days, hours, minutes, seconds)` decomposition into total seconds and
/// splitting again returns the same decomposition, and the total stays in
/// the supported range.
pub proof fn lemma_dhms_to_secs_to_dhms(d: int, h: int, m: int, s: int)
    requires
        valid_dhms(d, h, m, s),
    ensures
        valid_secs(secs_of_dhms(d, h, m, s)),
        days_of_secs(secs_of_dhms(d, h, m, s)) == d,
        hour_of_secs(secs_of_dhms(d, h, m, s)) == h,
        minute_of_secs(secs_of_dhms(d, h, m, s)) == m,
        second_of_secs(secs_of_dhms(d, h, m, s)) == s,
{
    let x: int = secs_of_dhms(d, h, m, s);
    let rem: int = 3600 * h + 60 * m + s;
    lemma_fundamental_div_mod_converse(x, 86400, d, rem);
    lemma_fundamental_div_mod_converse(rem, 3600, h, 60 * m + s);
    lemma_fundamental_div_mod_converse(rem, 60, 60 * h + m, s);
    lemma_fundamental_div_mod_converse(60 * h + m, 60, h, m);
}

/// Round trip through the day-seconds split, the other way: splitting a
/// total-seconds value in range and combining again returns the same
/// total, and the split is a valid decomposition.
pub proof fn lemma_secs_to_dhms_to_secs(secs: int)
    requires
        valid_secs(secs),
    ensures
        valid_dhms(
            days_of_secs(secs),
            hour_of_secs(secs),
            minute_of_secs(secs),
            second_of_secs(secs),
        ),
        secs_of_dhms(
            days_of_secs(secs),
            hour_of_secs(secs),
            minute_of_secs(secs),
            second_of_secs(secs),
        ) == secs,
{
    lemma_fundamental_div_mod(secs, 86400);
    lemma_mod_bound(secs, 86400);
    let rem: int = secs % 86400;
    lemma_fundamental_div_mod(rem, 3600);
    lemma_mod_bound(rem, 3600);
    lemma_fundamental_div_mod(rem, 60);
    lemma_mod_bound(rem, 60);
    lemma_fundamental_div_mod(rem / 60, 60);
    lemma_mod_bound(rem / 60, 60);
    lemma_div_denominator(rem, 60, 60);
    lemma_fundamental_div_mod(rem % 3600, 60);
    lemma_mod_bound(rem % 3600, 60);
    lemma_div_is_ordered(RD_SECONDS_MIN as int, secs, 86400);
    lemma_div_is_ordered(secs, RD_SECONDS_MAX as int, 86400);
    assert((RD_SECONDS_MIN as int) / 86400 == RD_MIN);
    assert((RD_SECONDS_MAX as int) / 86400 == RD_MAX);
}

/// Round trip through the instant conversions: a seconds-and-nanoseconds
/// pair in range denotes an instant in the representable window, and the
/// floor division of that instant's nanosecond distance recovers the same
/// pair. With the contracts of `secs_to_systemtime` and
/// `systemtime_to_secs`, converting a pair to an instant and back returns
/// it unchanged; one nanosecond before the epoch is the pair
/// `(-1, 999999999)`.
pub proof fn lemma_secs_to_systemtime_to_secs(secs: int, nanos: int)
    requires
        valid_secs(secs),
        0 <= nanos <= 999999999,
    ensures
        RD_SECONDS_MIN * 1000000000 <= secs * 1000000000 + nanos <= RD_SECONDS_MAX * 1000000000
            + 999999999,
        (secs * 1000000000 + nanos) / 1000000000 == secs,
        (secs * 1000000000 + nanos) % 1000000000 == nanos,
{
    lemma_fundamental_div_mod_converse(secs * 1000000000 + nanos, 1000000000, secs, nanos);
}

/// A well-formed instant is determined by its distance to the epoch: two
/// well-formed instants with the same signed nanosecond distance are equal.
pub proof fn lemma_systemtime_unique(a: SystemTime, b: SystemTime)
    requires
        a.wf(),
        b.wf(),
        a.nanos_from_epoch() == b.nanos_from_epoch(),
    ensures
        a == b,
{
    if a.before_epoch == b.before_epoch {
        lemma_fundamental_div_mod_converse(
            a.secs * 1000000000 + a.nanos,
            1000000000,
            a.secs as int,
            a.nanos as int,
        );
        lemma_fundamental_div_mod_converse(
            b.secs * 1000000000 + b.nanos,
            1000000000,
            b.secs as int,
            b.nanos as int,
        );
    }
}

} // verus!
