//! Conversions between Rata Die day counts and Gregorian civil dates.

use vstd::prelude::*;

use crate::model::{
    date_of, leap_year, month_days_before, month_length, rd_of, valid_date, DAY_OFFSET, RD_MAX,
    RD_MIN, YEAR_MIN, YEAR_MAX, YEAR_OFFSET,
};
use crate::era::{
    lemma_century_extract, lemma_month_extract, lemma_month_of_day, lemma_month_table,
    lemma_rd_decompose,
};
use crate::laws::{lemma_date_to_rd_to_date, lemma_rd_to_date_to_rd};
use vstd::arithmetic::div_mod::{
    lemma_fundamental_div_mod, lemma_fundamental_div_mod_converse, lemma_mod_bound,
    lemma_mod_multiples_vanish,
};

verus! {

/// Convert a Gregorian date to its Rata Die day count.
///
/// Given a `(year, month, day)` tuple returns the days since the Unix epoch
/// (January 1st, 1970); dates before the epoch give negative values. The
/// year is shifted by a whole number of 400-year eras so the era, century
/// and year divisions run on unsigned values, and January and February are
/// treated as months 13 and 14 of the previous year so the leap day ends
/// the internal year.
pub fn date_to_rd(date: (i32, u8, u8)) -> (rd: i32)
    requires
        valid_date(date.0 as int, date.1 as int, date.2 as int),
    ensures
        rd as int == rd_of(date.0 as int, date.1 as int, date.2 as int),
        RD_MIN <= rd <= RD_MAX,
{
    let (y, m, d) = date;
    proof {
        lemma_date_to_rd_to_date(y as int, m as int, d as int);
        lemma_month_table();
    }
    let jf: u32 = if m < 3 {
        1
    } else {
        0
    };
    let yu: u32 = (y + YEAR_OFFSET) as u32 - jf;
    let mu: u32 = m as u32 + 12 * jf;
    let du: u32 = d as u32 - 1;
    let ghost sy: int = if m < 3 { y as int - 1 } else { y as int };
    proof {
        assert(yu as int == sy + 1468000);
        lemma_fundamental_div_mod(sy, 100);
        lemma_mod_bound(sy, 100);
        lemma_fundamental_div_mod_converse(yu as int, 100, sy / 100 + 14680, sy % 100);
    }
    let c: u32 = yu / 100;
    proof {
        lemma_fundamental_div_mod(sy, 4);
        lemma_mod_bound(sy, 4);
        lemma_fundamental_div_mod_converse(
            1461 * (yu as int),
            4,
            365 * sy + sy / 4 + 536187000,
            sy % 4,
        );
        lemma_fundamental_div_mod(sy, 400);
        lemma_mod_bound(sy, 400);
        lemma_fundamental_div_mod(sy % 400, 100);
        lemma_mod_bound(sy % 400, 100);
        lemma_fundamental_div_mod_converse(
            sy,
            100,
            4 * (sy / 400) + (sy % 400) / 100,
            (sy % 400) % 100,
        );
        lemma_fundamental_div_mod_converse(c as int, 4, sy / 400 + 3670, (sy % 400) / 100);
    }
    let ys: u32 = 1461 * yu / 4 - c + c / 4;
    let ms: u32 = (979 * mu - 2919) / 32;
    proof {
        if mu == 3 {
            assert(ms as int == month_days_before(3));
        } else if mu == 4 {
            assert(ms as int == month_days_before(4));
        } else if mu == 5 {
            assert(ms as int == month_days_before(5));
        } else if mu == 6 {
            assert(ms as int == month_days_before(6));
        } else if mu == 7 {
            assert(ms as int == month_days_before(7));
        } else if mu == 8 {
            assert(ms as int == month_days_before(8));
        } else if mu == 9 {
            assert(ms as int == month_days_before(9));
        } else if mu == 10 {
            assert(ms as int == month_days_before(10));
        } else if mu == 11 {
            assert(ms as int == month_days_before(11));
        } else if mu == 12 {
            assert(ms as int == month_days_before(12));
        } else if mu == 13 {
            assert(ms as int == month_days_before(13));
        } else {
            assert(mu == 14);
            assert(ms as int == month_days_before(14));
        }
    }
    let n: u32 = ys + ms + du;
    proof {
        assert(n as int == rd_of(y as int, m as int, d as int) + 536895458);
    }
    (n as i32) - DAY_OFFSET
}

/// Convert a Rata Die day count to its Gregorian date.
///
/// Given a day count from the Unix epoch (January 1st, 1970) returns the
/// `(year, month, day)` tuple, following the Neri-Schneider decomposition:
/// the day count is shifted to an unsigned value, split into century and
/// day of century, and the year of century, day of year, month and day are
/// then each recovered by one fixed-point multiplication in place of a
/// division.
pub fn rd_to_date(n: i32) -> (r: (i32, u8, u8))
    requires
        RD_MIN <= n <= RD_MAX,
    ensures
        r.0 as int == date_of(n as int).0,
        r.1 as int == date_of(n as int).1,
        r.2 as int == date_of(n as int).2,
        valid_date(r.0 as int, r.1 as int, r.2 as int),
        rd_of(r.0 as int, r.1 as int, r.2 as int) == n as int,
{
    let ghost z: int = n as int + 719468;
    proof {
        lemma_rd_to_date_to_rd(n as int);
        lemma_rd_decompose(z);
        lemma_fundamental_div_mod(4 * z + 3, 146097);
        lemma_mod_bound(4 * z + 3, 146097);
    }
    let nu: u32 = (n + DAY_OFFSET) as u32;
    let n4: u32 = 4 * nu + 3;
    proof {
        lemma_fundamental_div_mod_converse(
            n4 as int,
            146097,
            (4 * z + 3) / 146097 + 14680,
            (4 * z + 3) % 146097,
        );
    }
    let cc: u32 = n4 / 146097;
    let rr: u32 = n4 % 146097;
    let n1: u32 = rr | 3;
    proof {
        assert(rr | 3 == 4 * (rr / 4) + 3) by (bit_vector);
        lemma_century_extract(n1 as int);
    }
    let p: u64 = 2939745u64 * (n1 as u64);
    let zz: u32 = (p / 4294967296) as u32;
    let rem: u32 = (p % 4294967296) as u32;
    let dy: u32 = rem / 2939745 / 4;
    let ghost dys: int = (((4 * z + 3) % 146097) / 4 * 4 + 3) % 1461 / 4;
    proof {
        assert(dys == dy as int);
        lemma_month_of_day(dys);
        lemma_month_extract(dys);
        lemma_month_table();
    }
    let nd: u32 = if dy >= 306 {
        1
    } else {
        0
    };
    let yv: u32 = 100 * cc + zz + nd;
    let n3: u32 = 2141 * dy + 197913;
    let mv: u32 = n3 / 65536;
    let dv: u32 = (n3 % 65536) / 2141;
    let yr: i32 = (yv as i32) - YEAR_OFFSET;
    let mo: u32 = if nd == 1 {
        mv - 12
    } else {
        mv
    };
    let dd: u32 = dv + 1;
    (yr, mo as u8, dd as u8)
}

/// Determine if the given year is a leap year.
///
/// The year is shifted by a whole number of 400-year eras so the moduli can
/// be taken on an unsigned value; the shift does not change divisibility by
/// 4, 100 or 400.
pub fn is_leap_year(y: i32) -> (r: bool)
    requires
        YEAR_MIN <= y <= YEAR_MAX,
    ensures
        r == leap_year(y as int),
{
    let yu: u32 = (y + YEAR_OFFSET) as u32;
    proof {
        lemma_mod_multiples_vanish(367000, y as int, 4);
        lemma_mod_multiples_vanish(14680, y as int, 100);
        lemma_mod_multiples_vanish(3670, y as int, 400);
    }
    yu % 4 == 0 && (yu % 100 != 0 || yu % 400 == 0)
}

/// Determine the number of days in the given month of the given year.
///
/// A month outside 1..=12 yields 0 rather than a panic; validity of the
/// month is the caller's contract.
pub fn days_in_month(y: i32, m: u8) -> (r: u8)
    requires
        YEAR_MIN <= y <= YEAR_MAX,
    ensures
        r as int == if 1 <= m <= 12 {
            month_length(y as int, m as int)
        } else {
            0
        },
{
    if m == 2 {
        if is_leap_year(y) {
            29
        } else {
            28
        }
    } else if m == 4 || m == 6 || m == 9 || m == 11 {
        30
    } else if 1 <= m && m <= 12 {
        31
    } else {
        0
    }
}

} // verus!
