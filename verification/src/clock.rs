//! Splitting epoch seconds into days and time of day, and back.

use vstd::prelude::*;

use crate::model::{
    date_of, days_of_secs, hour_of_secs, minute_of_secs, rd_of, second_of_secs, secs_of_dhms,
    valid_date, valid_dhms, valid_secs, valid_time, DAY_OFFSET, RD_MAX, RD_MIN, RD_SECONDS_MAX,
    RD_SECONDS_MIN, SECS_OFFSET,
};
use crate::gregorian::{date_to_rd, rd_to_date};
use vstd::arithmetic::div_mod::{
    lemma_div_is_ordered, lemma_fundamental_div_mod, lemma_fundamental_div_mod_converse,
    lemma_mod_bound,
};

verus! {

/// Split total seconds from the Unix epoch into `(days, hours, minutes,
/// seconds)`.
///
/// The seconds are shifted by a whole number of days so the divisions run
/// on an unsigned value: a negative total still splits into a non-negative
/// time of day and a more negative day count, so -1 second is day -1 at
/// 23:59:59.
pub fn secs_to_dhms(secs: i64) -> (r: (i32, u8, u8, u8))
    requires
        valid_secs(secs as int),
    ensures
        r.0 as int == days_of_secs(secs as int),
        r.1 as int == hour_of_secs(secs as int),
        r.2 as int == minute_of_secs(secs as int),
        r.3 as int == second_of_secs(secs as int),
        RD_MIN <= r.0 <= RD_MAX,
        valid_time(r.1 as int, r.2 as int, r.3 as int),
{
    let su: u64 = (secs + SECS_OFFSET) as u64;
    proof {
        lemma_fundamental_div_mod(secs as int, 86400);
        lemma_mod_bound(secs as int, 86400);
        lemma_fundamental_div_mod_converse(
            su as int,
            86400,
            secs as int / 86400 + 536895458,
            secs as int % 86400,
        );
        lemma_div_is_ordered(RD_SECONDS_MIN as int, secs as int, 86400);
        lemma_div_is_ordered(secs as int, RD_SECONDS_MAX as int, 86400);
        assert((RD_SECONDS_MIN as int) / 86400 == RD_MIN);
        assert((RD_SECONDS_MAX as int) / 86400 == RD_MAX);
    }
    let days: u64 = su / 86400;
    let rem: u32 = (su % 86400) as u32;
    let ss: u32 = rem % 60;
    let mm: u32 = rem / 60 % 60;
    let hh: u32 = rem / 3600;
    let d: i32 = (days as i64 - DAY_OFFSET as i64) as i32;
    (d, hh as u8, mm as u8, ss as u8)
}

/// Combine a `(days, hours, minutes, seconds)` decomposition into total
/// seconds from the Unix epoch.
pub fn dhms_to_secs(dhms: (i32, u8, u8, u8)) -> (secs: i64)
    requires
        valid_dhms(dhms.0 as int, dhms.1 as int, dhms.2 as int, dhms.3 as int),
    ensures
        secs as int == secs_of_dhms(dhms.0 as int, dhms.1 as int, dhms.2 as int, dhms.3 as int),
        valid_secs(secs as int),
{
    let (d, h, m, s) = dhms;
    d as i64 * 86400 + h as i64 * 3600 + m as i64 * 60 + s as i64
}

/// Convert total seconds from the Unix epoch to a broken-down
/// `(year, month, day, hours, minutes, seconds)` tuple.
pub fn secs_to_datetime(secs: i64) -> (r: (i32, u8, u8, u8, u8, u8))
    requires
        valid_secs(secs as int),
    ensures
        ({
            let days = days_of_secs(secs as int);
            &&& r.0 as int == date_of(days).0
            &&& r.1 as int == date_of(days).1
            &&& r.2 as int == date_of(days).2
            &&& r.3 as int == hour_of_secs(secs as int)
            &&& r.4 as int == minute_of_secs(secs as int)
            &&& r.5 as int == second_of_secs(secs as int)
        }),
        valid_date(r.0 as int, r.1 as int, r.2 as int),
        valid_time(r.3 as int, r.4 as int, r.5 as int),
{
    let (days, hh, mm, ss) = secs_to_dhms(secs);
    let (y, mo, dd) = rd_to_date(days);
    (y, mo, dd, hh, mm, ss)
}

/// Convert a broken-down `(year, month, day, hours, minutes, seconds)`
/// tuple to total seconds from the Unix epoch.
pub fn datetime_to_secs(dt: (i32, u8, u8, u8, u8, u8)) -> (secs: i64)
    requires
        valid_date(dt.0 as int, dt.1 as int, dt.2 as int),
        valid_time(dt.3 as int, dt.4 as int, dt.5 as int),
    ensures
        secs as int == secs_of_dhms(
            rd_of(dt.0 as int, dt.1 as int, dt.2 as int),
            dt.3 as int,
            dt.4 as int,
            dt.5 as int,
        ),
        valid_secs(secs as int),
{
    let (y, mo, dd, hh, mm, ss) = dt;
    let days = date_to_rd((y, mo, dd));
    dhms_to_secs((days, hh, mm, ss))
}

} // verus!
