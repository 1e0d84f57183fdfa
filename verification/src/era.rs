//! Arithmetic lemmas behind the Rata Die conversions.
//!
//! The conversions decompose a day count into century, year of century, day
//! of year, month and day by repeated Euclidean division. Each lemma here
//! pins one level of that decomposition by exhibiting the quotient and the
//! remainder explicitly.

use vstd::prelude::*;

use crate::model::{leap_year, month_days_before, year_days_before};
use vstd::arithmetic::div_mod::{
    lemma_fundamental_div_mod, lemma_fundamental_div_mod_converse, lemma_mod_bound,
    lemma_div_is_ordered,
};

verus! {

/// Days before each March-based month, evaluated once for the whole range.
pub(crate) proof fn lemma_month_table()
    ensures
        month_days_before(3) == 0,
        month_days_before(4) == 31,
        month_days_before(5) == 61,
        month_days_before(6) == 92,
        month_days_before(7) == 122,
        month_days_before(8) == 153,
        month_days_before(9) == 184,
        month_days_before(10) == 214,
        month_days_before(11) == 245,
        month_days_before(12) == 275,
        month_days_before(13) == 306,
        month_days_before(14) == 337,
        month_days_before(15) == 367,
{
}

/// In `4 * w + 3 == 4 * a + v` with `0 <= v <= 6`, necessarily `v == 3` and
/// `a == w`: the remainder of `4 * w + 3` modulo 4 is 3.
pub(crate) proof fn lemma_quarter_split(w: int, a: int, v: int)
    requires
        0 <= v <= 6,
        4 * w + 3 == 4 * a + v,
    ensures
        v == 3,
        a == w,
{
    if v <= 3 {
        lemma_fundamental_div_mod_converse(4 * w + 3, 4, a, v);
        lemma_fundamental_div_mod_converse(4 * w + 3, 4, w, 3);
    } else {
        lemma_fundamental_div_mod_converse(4 * w + 3, 4, a + 1, v - 4);
        lemma_fundamental_div_mod_converse(4 * w + 3, 4, w, 3);
    }
}

/// The March-based month holding day `dy` of a March-based year, recovered
/// by the affine step `(5 * dy + 461) / 153`, together with the bounds that
/// make the day of month valid.
pub(crate) proof fn lemma_month_of_day(dy: int)
    requires
        0 <= dy <= 365,
    ensures
        ({
            let m0 = (5 * dy + 461) / 153;
            &&& 3 <= m0 <= 14
            &&& month_days_before(m0) <= dy
            &&& (m0 <= 13 ==> dy < month_days_before(m0 + 1))
            &&& (m0 == 14 ==> dy - month_days_before(m0) <= 28)
            &&& ((m0 >= 13) <==> (dy >= 306))
        }),
{
    let m0: int = (5 * dy + 461) / 153;
    let u: int = (5 * dy + 461) % 153;
    lemma_fundamental_div_mod(5 * dy + 461, 153);
    lemma_mod_bound(5 * dy + 461, 153);
    assert(3 <= m0 <= 14);
    let k: int = 4 - u;
    lemma_fundamental_div_mod(k, 5);
    lemma_mod_bound(k, 5);
    assert(153 * m0 - 457 == 5 * (dy + k / 5) + (k % 5));
    lemma_fundamental_div_mod_converse(153 * m0 - 457, 5, dy + k / 5, k % 5);
    lemma_div_is_ordered(-150, k, 5);
    lemma_div_is_ordered(k, 4, 5);
    assert((-150int) / 5 == -30 && 4int / 5 == 0);
    assert(month_days_before(m0) <= dy);
    if m0 <= 13 {
        let k2: int = 157 - u;
        lemma_fundamental_div_mod(k2, 5);
        lemma_mod_bound(k2, 5);
        assert(153 * (m0 + 1) - 457 == 5 * (dy + k2 / 5) + (k2 % 5));
        lemma_fundamental_div_mod_converse(153 * (m0 + 1) - 457, 5, dy + k2 / 5, k2 % 5);
        lemma_div_is_ordered(5, k2, 5);
        assert(5int / 5 == 1);
        assert(dy < month_days_before(m0 + 1));
    }
    lemma_month_table();
}

/// `year_days_before` splits along centuries: for a March-based year written
/// as `100 * c + q` with `q` in 0..=99, the day count is
/// `36524 * c + c / 4 + 365 * q + q / 4`.
pub(crate) proof fn lemma_year_days_split(c: int, q: int)
    requires
        0 <= q <= 99,
    ensures
        year_days_before(100 * c + q) == 36524 * c + c / 4 + 365 * q + q / 4,
{
    let yy: int = 100 * c + q;
    lemma_fundamental_div_mod(q, 4);
    lemma_mod_bound(q, 4);
    lemma_fundamental_div_mod_converse(yy, 4, 25 * c + q / 4, q % 4);
    lemma_fundamental_div_mod_converse(yy, 100, c, q);
    lemma_fundamental_div_mod(c, 4);
    lemma_mod_bound(c, 4);
    lemma_fundamental_div_mod_converse(yy, 400, c / 4, 100 * (c % 4) + q);
}

/// `year_days_before` grows by at least 364 days per year, less a constant:
/// enough to bound the year recovered from a bounded day count.
pub(crate) proof fn lemma_year_days_grow(a: int, b: int)
    requires
        a <= b,
    ensures
        year_days_before(b) - year_days_before(a) >= 364 * (b - a) - 1,
{
    let k: int = b - a;
    lemma_div_is_ordered(a, b, 4);
    lemma_div_is_ordered(a, b, 400);
    lemma_fundamental_div_mod(a, 100);
    lemma_mod_bound(a, 100);
    lemma_fundamental_div_mod(a % 100 + k, 100);
    lemma_mod_bound(a % 100 + k, 100);
    lemma_fundamental_div_mod_converse(b, 100, a / 100 + (a % 100 + k) / 100, (a % 100 + k) % 100);
    lemma_div_is_ordered(a % 100 + k, 99 + k, 100);
    lemma_fundamental_div_mod(k, 100);
    lemma_mod_bound(k, 100);
    if k % 100 == 0 {
        lemma_fundamental_div_mod_converse(99 + k, 100, k / 100, 99);
    } else {
        lemma_fundamental_div_mod_converse(99 + k, 100, k / 100 + 1, k % 100 - 1);
    }
    assert(k / 100 >= 0 && 100 * (k / 100) <= k);
}

/// The exact gap between consecutive March-based years: 365 days, plus one
/// when the civil year that ends the later March-based year is a leap
/// year.
pub(crate) proof fn lemma_year_gap(y: int)
    ensures
        year_days_before(y) - year_days_before(y - 1) == 365 + (if leap_year(y) {
            1int
        } else {
            0int
        }),
{
    lemma_fundamental_div_mod(y, 4);
    lemma_mod_bound(y, 4);
    if y % 4 == 0 {
        lemma_fundamental_div_mod_converse(y - 1, 4, y / 4 - 1, 3);
    } else {
        lemma_fundamental_div_mod_converse(y - 1, 4, y / 4, y % 4 - 1);
    }
    lemma_fundamental_div_mod(y, 100);
    lemma_mod_bound(y, 100);
    if y % 100 == 0 {
        lemma_fundamental_div_mod_converse(y - 1, 100, y / 100 - 1, 99);
        lemma_fundamental_div_mod_converse(y, 4, 25 * (y / 100), 0);
    } else {
        lemma_fundamental_div_mod_converse(y - 1, 100, y / 100, y % 100 - 1);
    }
    lemma_fundamental_div_mod(y, 400);
    lemma_mod_bound(y, 400);
    if y % 400 == 0 {
        lemma_fundamental_div_mod_converse(y - 1, 400, y / 400 - 1, 399);
        lemma_fundamental_div_mod_converse(y, 100, 4 * (y / 400), 0);
    } else {
        lemma_fundamental_div_mod_converse(y - 1, 400, y / 400, y % 400 - 1);
    }
}

/// The fixed-point step of the day-count conversion: multiplying by
/// 2939745 and splitting at 2^32 divides by 1461, because
/// `2939745 * 1461 == 2^32 + 149` and the error term stays below 2^32 on
/// the supported range.
pub(crate) proof fn lemma_century_extract(n1: int)
    requires
        3 <= n1 <= 146099,
    ensures
        (2939745 * n1) / 4294967296 == n1 / 1461,
        ((2939745 * n1) % 4294967296) / 2939745 == n1 % 1461,
{
    let q: int = n1 / 1461;
    let s: int = n1 % 1461;
    lemma_fundamental_div_mod(n1, 1461);
    lemma_mod_bound(n1, 1461);
    assert(0 <= q <= 99);
    assert(2939745 * n1 == 4294967296 * q + (2939745 * s + 149 * q));
    lemma_fundamental_div_mod_converse(2939745 * n1, 4294967296, q, 2939745 * s + 149 * q);
    lemma_fundamental_div_mod_converse(2939745 * s + 149 * q, 2939745, s, 149 * q);
}

/// The fixed-point step of the month conversion: multiplying the day of
/// year by 2141 and splitting at 2^16 recovers the March-based month and
/// the day of month in one go.
pub(crate) proof fn lemma_month_extract(dy: int)
    requires
        0 <= dy <= 365,
    ensures
        ({
            let m0 = (5 * dy + 461) / 153;
            let d0 = dy - month_days_before(m0);
            &&& (2141 * dy + 197913) / 65536 == m0
            &&& ((2141 * dy + 197913) % 65536) / 2141 == d0
        }),
{
    lemma_month_of_day(dy);
    lemma_month_table();
    let m0: int = (5 * dy + 461) / 153;
    let x: int = 2141 * dy + 197913;
    if m0 == 3 {
        lemma_fundamental_div_mod_converse(x, 65536, 3, 2141 * (dy - 0) + 1305);
        lemma_fundamental_div_mod_converse(2141 * (dy - 0) + 1305, 2141, dy - 0, 1305);
    } else if m0 == 4 {
        lemma_fundamental_div_mod_converse(x, 65536, 4, 2141 * (dy - 31) + 2140);
        lemma_fundamental_div_mod_converse(2141 * (dy - 31) + 2140, 2141, dy - 31, 2140);
    } else if m0 == 5 {
        lemma_fundamental_div_mod_converse(x, 65536, 5, 2141 * (dy - 61) + 834);
        lemma_fundamental_div_mod_converse(2141 * (dy - 61) + 834, 2141, dy - 61, 834);
    } else if m0 == 6 {
        lemma_fundamental_div_mod_converse(x, 65536, 6, 2141 * (dy - 92) + 1669);
        lemma_fundamental_div_mod_converse(2141 * (dy - 92) + 1669, 2141, dy - 92, 1669);
    } else if m0 == 7 {
        lemma_fundamental_div_mod_converse(x, 65536, 7, 2141 * (dy - 122) + 363);
        lemma_fundamental_div_mod_converse(2141 * (dy - 122) + 363, 2141, dy - 122, 363);
    } else if m0 == 8 {
        lemma_fundamental_div_mod_converse(x, 65536, 8, 2141 * (dy - 153) + 1198);
        lemma_fundamental_div_mod_converse(2141 * (dy - 153) + 1198, 2141, dy - 153, 1198);
    } else if m0 == 9 {
        lemma_fundamental_div_mod_converse(x, 65536, 9, 2141 * (dy - 184) + 2033);
        lemma_fundamental_div_mod_converse(2141 * (dy - 184) + 2033, 2141, dy - 184, 2033);
    } else if m0 == 10 {
        lemma_fundamental_div_mod_converse(x, 65536, 10, 2141 * (dy - 214) + 727);
        lemma_fundamental_div_mod_converse(2141 * (dy - 214) + 727, 2141, dy - 214, 727);
    } else if m0 == 11 {
        lemma_fundamental_div_mod_converse(x, 65536, 11, 2141 * (dy - 245) + 1562);
        lemma_fundamental_div_mod_converse(2141 * (dy - 245) + 1562, 2141, dy - 245, 1562);
    } else if m0 == 12 {
        lemma_fundamental_div_mod_converse(x, 65536, 12, 2141 * (dy - 275) + 256);
        lemma_fundamental_div_mod_converse(2141 * (dy - 275) + 256, 2141, dy - 275, 256);
    } else if m0 == 13 {
        lemma_fundamental_div_mod_converse(x, 65536, 13, 2141 * (dy - 306) + 1091);
        lemma_fundamental_div_mod_converse(2141 * (dy - 306) + 1091, 2141, dy - 306, 1091);
    } else {
        assert(m0 == 14);
        lemma_fundamental_div_mod_converse(x, 65536, 14, 2141 * (dy - 337) + 1926);
        lemma_fundamental_div_mod_converse(2141 * (dy - 337) + 1926, 2141, dy - 337, 1926);
    }
}

/// The forward Euclidean decomposition of a day count `z` (measured from
/// 0000-03-01): the century `c`, year of century `q` and day of year `dy`
/// recovered by the division chain add back up to `z`, and a day of year of
/// 365 forces the congruences that make the following civil year a leap
/// year.
pub(crate) proof fn lemma_rd_decompose(z: int)
    ensures
        ({
            let n = 4 * z + 3;
            let c = n / 146097;
            let r = n % 146097;
            let j = r / 4;
            let n1 = 4 * j + 3;
            let q = n1 / 1461;
            let dy = (n1 % 1461) / 4;
            &&& 0 <= r <= 146096
            &&& 0 <= j <= 36524
            &&& 0 <= q <= 99
            &&& 0 <= dy <= 365
            &&& z == year_days_before(100 * c + q) + dy
            &&& (dy == 365 ==> q % 4 == 3)
            &&& (dy == 365 && q == 99 ==> c % 4 == 3)
        }),
{
    let n: int = 4 * z + 3;
    lemma_fundamental_div_mod(n, 146097);
    lemma_mod_bound(n, 146097);
    let c: int = n / 146097;
    let r: int = n % 146097;
    lemma_fundamental_div_mod(r, 4);
    lemma_mod_bound(r, 4);
    let j: int = r / 4;
    let b: int = r % 4;
    lemma_fundamental_div_mod(c, 4);
    lemma_mod_bound(c, 4);
    let g: int = c / 4;
    let h: int = c % 4;
    assert(4 * z + 3 == 4 * (146097 * g + 36524 * h + j) + (h + b));
    lemma_quarter_split(z, 146097 * g + 36524 * h + j, h + b);
    let n1: int = 4 * j + 3;
    lemma_fundamental_div_mod(n1, 1461);
    lemma_mod_bound(n1, 1461);
    let q: int = n1 / 1461;
    let s: int = n1 % 1461;
    lemma_fundamental_div_mod(s, 4);
    lemma_mod_bound(s, 4);
    let dy: int = s / 4;
    let t: int = s % 4;
    lemma_fundamental_div_mod(q, 4);
    lemma_mod_bound(q, 4);
    let a: int = q / 4;
    let e: int = q % 4;
    assert(4 * j + 3 == 4 * (1461 * a + 365 * e + dy) + (e + t));
    lemma_quarter_split(j, 1461 * a + 365 * e + dy, e + t);
    assert(0 <= q <= 99);
    assert(0 <= dy <= 365);
    lemma_year_days_split(c, q);
    assert(z == year_days_before(100 * c + q) + dy);
    if dy == 365 {
        assert(t == 0);
        assert(e == 3);
        if q == 99 {
            assert(j == 36524);
            assert(b == 0);
            assert(h == 3);
        }
    }
}

} // verus!
