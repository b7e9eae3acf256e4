//! Proleptic Gregorian calendar arithmetic: leap years, day counts from a
//! fixed epoch, and the decomposition of a day count into calendar fields.
//!
//! Day counts are relative to 1970-01-01; years are astronomical (year 0
//! exists and is a leap year). Months are counted from 0 (January).

use vstd::prelude::*;
use vstd::arithmetic::div_mod::lemma_fundamental_div_mod;
use vstd::arithmetic::div_mod::lemma_fundamental_div_mod_converse;

verus! {

/// Days from 0000-01-01 to the epoch 1970-01-01.
pub const EPOCH_DAYS: i64 = 719_528;

/// Days in 400 consecutive years.
pub const DAYS_PER_400Y: i64 = 146_097;

pub open spec fn is_leap_spec(y: int) -> bool {
    y % 4 == 0 && (y % 100 != 0 || y % 400 == 0)
}

pub open spec fn days_in_year_spec(y: int) -> int {
    if is_leap_spec(y) {
        366
    } else {
        365
    }
}

/// Signed count of leap years in `[0, y)` (negative when `y < 0` counts
/// leap years in `[y, 0)`).
pub open spec fn leaps_before(y: int) -> int {
    (y + 3) / 4 - (y + 99) / 100 + (y + 399) / 400
}

/// Days from 0000-01-01 to the first day of year `y` (negative for years
/// before year 0).
pub open spec fn days_before_year(y: int) -> int {
    365 * y + leaps_before(y)
}

/// Days from the start of the year to the first day of month `m`
/// (month 0 is January); clamped outside `[0, 12]`.
pub open spec fn days_before_month_spec(leap: bool, m: int) -> int {
    let base: int = if m <= 0 {
        0
    } else if m == 1 {
        31
    } else if m == 2 {
        59
    } else if m == 3 {
        90
    } else if m == 4 {
        120
    } else if m == 5 {
        151
    } else if m == 6 {
        181
    } else if m == 7 {
        212
    } else if m == 8 {
        243
    } else if m == 9 {
        273
    } else if m == 10 {
        304
    } else if m == 11 {
        334
    } else {
        365
    };
    if leap && m >= 2 {
        base + 1
    } else {
        base
    }
}

pub open spec fn days_in_month_spec(leap: bool, m: int) -> int {
    days_before_month_spec(leap, m + 1) - days_before_month_spec(leap, m)
}

/// Days from the epoch to the civil date `(y, m, d)`, month 0 being
/// January and `d` counted from 1.
pub open spec fn days_from_civil(y: int, m: int, d: int) -> int {
    days_before_year(y) + days_before_month_spec(is_leap_spec(y), m) + (d - 1) - EPOCH_DAYS
}

/// Divisibility is unchanged by negating the dividend.
pub proof fn lemma_neg_mod_zero_pub(x: int, m: int)
    requires
        m > 0,
    ensures
        (x % m == 0) <==> ((-x) % m == 0),
{
    lemma_neg_mod_zero(x, m);
}

/// Divisibility is unchanged by negating the dividend.
proof fn lemma_neg_mod_zero(x: int, m: int)
    requires
        m > 0,
    ensures
        (x % m == 0) <==> ((-x) % m == 0),
{
    lemma_fundamental_div_mod(x, m);
    lemma_fundamental_div_mod(-x, m);
    if x % m == 0 {
        let q = x / m;
        assert(-x == (-q) * m + 0) by (nonlinear_arith)
            requires
                x == m * q,
        ;
        lemma_fundamental_div_mod_converse(-x, m, -q, 0);
    }
    if (-x) % m == 0 {
        let q = (-x) / m;
        assert(x == (-q) * m + 0) by (nonlinear_arith)
            requires
                -x == m * q,
        ;
        lemma_fundamental_div_mod_converse(x, m, -q, 0);
    }
}

pub fn is_leap_year(y: i64) -> (b: bool)
    ensures
        b == is_leap_spec(y as int),
{
    proof {
        lemma_neg_mod_zero(y as int, 4);
        lemma_neg_mod_zero(y as int, 100);
        lemma_neg_mod_zero(y as int, 400);
    }
    (y % 4 == 0) && ((y % 100 != 0) || (y % 400 == 0))
}

pub fn days_in_year(y: i64) -> (n: i64)
    ensures
        n == days_in_year_spec(y as int),
{
    if is_leap_year(y) {
        366
    } else {
        365
    }
}

pub fn days_in_month(leap: bool, m: i64) -> (n: i64)
    requires
        0 <= m < 12,
    ensures
        n == days_in_month_spec(leap, m as int),
{
    if m == 1 {
        if leap {
            29
        } else {
            28
        }
    } else if m == 3 || m == 5 || m == 8 || m == 10 {
        30
    } else {
        31
    }
}

/// Floor division for a divisor of at least 2 (rounds toward negative
/// infinity, unlike Rust's `/`, which rounds toward zero).
pub fn floor_div_i64(a: i64, b: i64) -> (q: i64)
    requires
        b >= 2,
    ensures
        q == (a as int) / (b as int),
{
    let q0 = a / b;
    let r0 = a % b;
    proof {
        let ai = a as int;
        let bi = b as int;
        if a >= 0 {
        } else {
            let na = -ai;
            lemma_fundamental_div_mod(na, bi);
            assert(q0 == -(na / bi));
            assert(r0 == -(na % bi));
            assert(ai == bi * (q0 as int) + r0) by (nonlinear_arith)
                requires
                    na == bi * (na / bi) + na % bi,
                    q0 == -(na / bi),
                    r0 == -(na % bi),
                    ai == -na,
            ;
            if r0 < 0 {
                assert((q0 - 1) * bi + (r0 + bi) == ai) by (nonlinear_arith)
                    requires
                        ai == bi * (q0 as int) + r0,
                ;
                lemma_fundamental_div_mod_converse(ai, bi, q0 as int - 1, r0 + bi);
                vstd::arithmetic::div_mod::lemma_div_is_ordered_by_denominator(na, 2, bi);
            } else {
                assert((q0 as int) * bi + r0 == ai) by (nonlinear_arith)
                    requires
                        ai == bi * (q0 as int) + r0,
                ;
                lemma_fundamental_div_mod_converse(ai, bi, q0 as int, r0 as int);
            }
        }
    }
    if r0 < 0 {
        q0 - 1
    } else {
        q0
    }
}

/// Remainder matching `floor_div_i64`; always in `[0, b)`.
pub fn floor_mod_i64(a: i64, b: i64) -> (r: i64)
    requires
        b >= 2,
    ensures
        r == (a as int) % (b as int),
        0 <= r < b,
{
    let q0 = a / b;
    let r0 = a % b;
    proof {
        let ai = a as int;
        let bi = b as int;
        if a >= 0 {
        } else {
            let na = -ai;
            lemma_fundamental_div_mod(na, bi);
            assert(q0 == -(na / bi));
            assert(r0 == -(na % bi));
            assert(ai == bi * (q0 as int) + r0) by (nonlinear_arith)
                requires
                    na == bi * (na / bi) + na % bi,
                    q0 == -(na / bi),
                    r0 == -(na % bi),
                    ai == -na,
            ;
            if r0 < 0 {
                assert((q0 - 1) * bi + (r0 + bi) == ai) by (nonlinear_arith)
                    requires
                        ai == bi * (q0 as int) + r0,
                ;
                lemma_fundamental_div_mod_converse(ai, bi, q0 as int - 1, r0 + bi);
            } else {
                assert((q0 as int) * bi + r0 == ai) by (nonlinear_arith)
                    requires
                        ai == bi * (q0 as int) + r0,
                ;
                lemma_fundamental_div_mod_converse(ai, bi, q0 as int, r0 as int);
            }
        }
    }
    if r0 < 0 {
        r0 + b
    } else {
        r0
    }
}

/// Crossing one more multiple of `m` raises the quotient by exactly one,
/// and by nothing short of the multiple.
proof fn lemma_step_term(y: int, m: int)
    requires
        m >= 2,
    ensures
        (y + m) / m - (y + m - 1) / m == if y % m == 0 {
            1int
        } else {
            0int
        },
{
    lemma_fundamental_div_mod(y, m);
    let q = y / m;
    let r = y % m;
    assert(y + m == (q + 1) * m + r) by (nonlinear_arith)
        requires
            y == m * q + r,
    ;
    lemma_fundamental_div_mod_converse(y + m, m, q + 1, r);
    if r == 0 {
        assert(y + m - 1 == q * m + (m - 1)) by (nonlinear_arith)
            requires
                y == m * q + r,
                r == 0,
        ;
        lemma_fundamental_div_mod_converse(y + m - 1, m, q, m - 1);
    } else {
        assert(y + m - 1 == (q + 1) * m + (r - 1)) by (nonlinear_arith)
            requires
                y == m * q + r,
        ;
        lemma_fundamental_div_mod_converse(y + m - 1, m, q + 1, r - 1);
    }
}

/// A year divisible by a multiple of 4 is divisible by 4 as well.
proof fn lemma_mod_zero_factor(y: int, a: int, b: int)
    requires
        a > 0,
        b > 0,
        y % (a * b) == 0,
    ensures
        y % a == 0,
{
    assert(a * b > 0) by (nonlinear_arith)
        requires
            a > 0,
            b > 0,
    ;
    lemma_fundamental_div_mod(y, a * b);
    let q = y / (a * b);
    assert(y == (b * q) * a + 0) by (nonlinear_arith)
        requires
            y == (a * b) * q,
    ;
    lemma_fundamental_div_mod_converse(y, a, b * q, 0);
}

/// Adding a year adds that year's day count.
pub proof fn lemma_dby_step(y: int)
    ensures
        days_before_year(y + 1) == days_before_year(y) + days_in_year_spec(y),
{
    lemma_step_term(y, 4);
    lemma_step_term(y, 100);
    lemma_step_term(y, 400);
    if y % 400 == 0 {
        lemma_mod_zero_factor(y, 100, 4);
        lemma_mod_zero_factor(y, 4, 100);
    }
    if y % 100 == 0 {
        lemma_mod_zero_factor(y, 4, 25);
    }
}

/// Day counts grow with the year, by 365 to 366 days per year.
pub proof fn lemma_dby_bounds(y1: int, y2: int)
    requires
        y1 <= y2,
    ensures
        365 * (y2 - y1) <= days_before_year(y2) - days_before_year(y1) <= 366 * (y2 - y1),
    decreases y2 - y1,
{
    if y1 < y2 {
        lemma_dby_bounds(y1, y2 - 1);
        lemma_dby_step(y2 - 1);
    }
}

/// A 400-year block holds exactly `DAYS_PER_400Y` days.
pub proof fn lemma_dby_400(e: int)
    ensures
        days_before_year(400 * e) == 146_097 * e,
{
    assert((400 * e + 3) / 4 == 100 * e) by {
        assert(400 * e + 3 == (100 * e) * 4 + 3) by (nonlinear_arith);
        lemma_fundamental_div_mod_converse(400 * e + 3, 4, 100 * e, 3);
    }
    assert((400 * e + 99) / 100 == 4 * e) by {
        assert(400 * e + 99 == (4 * e) * 100 + 99) by (nonlinear_arith);
        lemma_fundamental_div_mod_converse(400 * e + 99, 100, 4 * e, 99);
    }
    assert((400 * e + 399) / 400 == e) by {
        assert(400 * e + 399 == e * 400 + 399) by (nonlinear_arith);
        lemma_fundamental_div_mod_converse(400 * e + 399, 400, e, 399);
    }
    assert(365 * (400 * e) == 146_000 * e) by (nonlinear_arith);
}

/// A calendar date: year, month in `[0, 11]`, day of the month counted
/// from 1, day of the year counted from 0, and day of the week counted
/// from 0 (Sunday).
pub struct CivilDate {
    pub year: i64,
    pub month: i64,
    pub day: i64,
    pub yday: i64,
    pub wday: i64,
}

/// Decomposes a day count from the epoch into a calendar date.
#[verifier::rlimit(30)]
pub fn civil_from_days(days: i64) -> (r: CivilDate)
    requires
        -200_000_000_000_000 <= days <= 200_000_000_000_000,
    ensures
        0 <= r.month < 12,
        1 <= r.day <= days_in_month_spec(is_leap_spec(r.year as int), r.month as int),
        days_from_civil(r.year as int, r.month as int, r.day as int) == days,
        r.yday == days + EPOCH_DAYS - days_before_year(r.year as int),
        0 <= r.yday < days_in_year_spec(r.year as int),
        r.wday == (days + 4) % 7,
        0 <= r.wday < 7,
{
    let z: i64 = days + EPOCH_DAYS;
    let era: i64 = floor_div_i64(z, DAYS_PER_400Y);
    let mut year: i64 = era * 400;
    let mut rem: i64 = z - era * DAYS_PER_400Y;
    proof {
        lemma_fundamental_div_mod(z as int, 146_097);
        lemma_dby_400(era as int);
        lemma_dby_400(era as int + 1);
        assert(400 * (era as int + 1) == 400 * era + 400) by (nonlinear_arith);
        assert(146_097 * (era as int + 1) == 146_097 * era + 146_097) by (nonlinear_arith);
        vstd::arithmetic::div_mod::lemma_div_is_ordered(
            z as int, 200_001_000_000_000, 146_097);
        vstd::arithmetic::div_mod::lemma_div_is_ordered(
            -200_001_000_000_000, z as int, 146_097);
        assert(-1_400_000_000 <= era <= 1_400_000_000);
    }
    while rem >= days_in_year(year)
        invariant
            era * 400 <= year <= era * 400 + 400,
            rem == z - days_before_year(year as int),
            0 <= rem < 146_097,
            z == days + EPOCH_DAYS,
            z - days_before_year((era * 400) as int) < 146_097,
            days_before_year((era * 400 + 400) as int)
                == days_before_year((era * 400) as int) + 146_097,
            -1_400_000_000 <= era <= 1_400_000_000,
        decreases era * 400 + 400 - year,
    {
        let n = days_in_year(year);
        proof {
            lemma_dby_step(year as int);
            if year as int == era * 400 + 400 {
                lemma_dby_bounds((era * 400) as int, year as int);
                assert(false);
            }
        }
        rem = rem - n;
        year = year + 1;
    }
    let yday: i64 = rem;
    let leap = is_leap_year(year);
    let mut month: i64 = 0;
    let mut mrem: i64 = rem;
    while month < 11 && mrem >= days_in_month(leap, month)
        invariant
            0 <= month <= 11,
            leap == is_leap_spec(year as int),
            mrem == rem - days_before_month_spec(leap, month as int),
            0 <= mrem,
            0 <= rem < days_in_year_spec(year as int),
        decreases 11 - month,
    {
        let n = days_in_month(leap, month);
        mrem = mrem - n;
        month = month + 1;
    }
    let day: i64 = mrem + 1;
    let wday: i64 = floor_mod_i64(days + 4, 7);
    proof {
        if month == 11 {
            assert(mrem < days_in_month_spec(leap, 11));
        }
    }
    CivilDate { year, month, day, yday, wday }
}

} // verus!
