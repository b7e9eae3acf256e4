//! Broken-down calendar time and its conversions to and from absolute
//! time.
//!
//! A `Tm` is interpreted against the UTC offset held in its own
//! `tm_utcoff` field; resolving the ambient local timezone of the process
//! is left to the platform layer around this library.

use vstd::prelude::*;
use crate::Timespec;
use crate::clock::get_time;
use crate::duration::Duration;
use crate::calendar::EPOCH_DAYS;
use crate::calendar::days_before_year;
use crate::calendar::days_from_civil;
use crate::calendar::days_in_month_spec;
use crate::calendar::civil_from_days;
use crate::calendar::floor_div_i64;
use crate::calendar::floor_mod_i64;
use crate::calendar::is_leap_spec;
use crate::calendar::is_leap_year;
use crate::calendar::lemma_dby_bounds;

verus! {

/// Instants whose seconds exceed this magnitude are not decomposed into
/// calendar fields: their year would not fit the `i32` year field.
pub const TM_SEC_LIMIT: i64 = 60_000_000_000_000_000;

/// Holds a calendar date and time broken down into its components (year,
/// month, day, and so on), also called a broken-down time value.
#[derive(Copy, Clone, Debug, PartialEq, Eq, Structural, Hash)]
pub struct Tm {
    /// Seconds after the minute - [0, 60]
    pub tm_sec: i32,
    /// Minutes after the hour - [0, 59]
    pub tm_min: i32,
    /// Hours after midnight - [0, 23]
    pub tm_hour: i32,
    /// Day of the month - [1, 31]
    pub tm_mday: i32,
    /// Months since January - [0, 11]
    pub tm_mon: i32,
    /// Years since 1900
    pub tm_year: i32,
    /// Days since Sunday - [0, 6]. 0 = Sunday, 1 = Monday, ..., 6 = Saturday.
    pub tm_wday: i32,
    /// Days since January 1 - [0, 365]
    pub tm_yday: i32,
    /// Daylight Saving Time flag: positive when in effect, zero when not,
    /// negative when unknown.
    pub tm_isdst: i32,
    /// Seconds east of UTC of the zone this value was computed for.
    pub tm_utcoff: i32,
    /// Nanoseconds after the second - [0, 10^9 - 1]
    pub tm_nsec: i32,
}

/// The all-zero broken-down time.
pub open spec fn empty_tm_spec() -> Tm {
    Tm {
        tm_sec: 0,
        tm_min: 0,
        tm_hour: 0,
        tm_mday: 0,
        tm_mon: 0,
        tm_year: 0,
        tm_wday: 0,
        tm_yday: 0,
        tm_isdst: 0,
        tm_utcoff: 0,
        tm_nsec: 0,
    }
}

pub fn empty_tm() -> (tm: Tm)
    ensures
        tm == empty_tm_spec(),
{
    Tm {
        tm_sec: 0,
        tm_min: 0,
        tm_hour: 0,
        tm_mday: 0,
        tm_mon: 0,
        tm_year: 0,
        tm_wday: 0,
        tm_yday: 0,
        tm_isdst: 0,
        tm_utcoff: 0,
        tm_nsec: 0,
    }
}

/// The absolute seconds denoted by a broken-down time read against its
/// own UTC offset: out-of-range months carry into the year, the other
/// fields extend linearly past their documented ranges.
pub open spec fn tm_to_secs_spec(tm: Tm) -> int {
    let y: int = tm.tm_year + 1900 + (tm.tm_mon as int) / 12;
    let m: int = (tm.tm_mon as int) % 12;
    (days_from_civil(y, m, 1) + (tm.tm_mday - 1)) * 86400 + tm.tm_hour * 3600 + tm.tm_min * 60
        + tm.tm_sec - tm.tm_utcoff
}

/// Holds when `r` is the decomposition of the instant `clock` into
/// calendar fields under the UTC offset `off`.
pub open spec fn decomposes(clock: Timespec, off: int, r: Tm) -> bool {
    let loc = clock.sec + off;
    let days = loc / 86400;
    let sod = loc % 86400;
    &&& r.tm_hour == sod / 3600
    &&& r.tm_min == (sod % 3600) / 60
    &&& r.tm_sec == sod % 60
    &&& 0 <= r.tm_mon < 12
    &&& 1 <= r.tm_mday <= days_in_month_spec(is_leap_spec(r.tm_year + 1900), r.tm_mon as int)
    &&& days_from_civil(r.tm_year + 1900, r.tm_mon as int, r.tm_mday as int) == days
    &&& r.tm_yday == days + EPOCH_DAYS - days_before_year((r.tm_year + 1900) as int)
    &&& r.tm_wday == (days + 4) % 7
    &&& r.tm_isdst == 0
    &&& r.tm_utcoff == off
    &&& r.tm_nsec == clock.nsec
}

/// Returns the given time decomposed under a fixed UTC offset, in
/// seconds east of UTC.
///
/// An instant beyond `TM_SEC_LIMIT` seconds from the epoch has no
/// representable year; for those the all-zero value is returned, as the
/// platform decomposition services leave their result empty on failure.
pub fn at_offset(clock: Timespec, off: i32) -> (r: Tm)
    ensures
        -TM_SEC_LIMIT <= clock.sec <= TM_SEC_LIMIT ==> decomposes(clock, off as int, r),
        !(-TM_SEC_LIMIT <= clock.sec <= TM_SEC_LIMIT) ==> r == empty_tm_spec(),
{
    if clock.sec < -TM_SEC_LIMIT || clock.sec > TM_SEC_LIMIT {
        return empty_tm();
    }
    let loc: i64 = clock.sec + off as i64;
    let days: i64 = floor_div_i64(loc, 86400);
    let sod: i64 = floor_mod_i64(loc, 86400);
    let hour: i64 = sod / 3600;
    let minute: i64 = (sod % 3600) / 60;
    let second: i64 = sod % 60;
    let cd = civil_from_days(days);
    proof {
        let y = cd.year as int;
        let z = days + EPOCH_DAYS;
        assert(days_before_year(y) <= z) by {
            assert(cd.yday == z - days_before_year(y));
        }
        if y >= 0 {
            lemma_dby_bounds(0, y);
        } else {
            lemma_dby_bounds(y, 0);
        }
    }
    Tm {
        tm_sec: second as i32,
        tm_min: minute as i32,
        tm_hour: hour as i32,
        tm_mday: cd.day as i32,
        tm_mon: cd.month as i32,
        tm_year: (cd.year - 1900) as i32,
        tm_wday: cd.wday as i32,
        tm_yday: cd.yday as i32,
        tm_isdst: 0,
        tm_utcoff: off,
        tm_nsec: clock.nsec,
    }
}

/// Returns the current time in UTC: the decomposition of some
/// normalized instant read from the wall clock.
pub fn now_utc() -> (r: Tm)
    ensures
        exists|ts: Timespec|
            #[trigger] ts.wf() && (if -TM_SEC_LIMIT <= ts.sec <= TM_SEC_LIMIT {
                decomposes(ts, 0, r)
            } else {
                r == empty_tm_spec()
            }),
        r.tm_utcoff == 0,
        0 <= r.tm_nsec < 1_000_000_000,
{
    let clock = get_time();
    let r = at_utc(clock);
    proof {
        assert(clock.wf() && (if -TM_SEC_LIMIT <= clock.sec <= TM_SEC_LIMIT {
            decomposes(clock, 0, r)
        } else {
            r == empty_tm_spec()
        }));
    }
    r
}

/// A nanosecond count in the representable range splits into a unique
/// normalized second and subsecond pair.
pub proof fn lemma_split_total(total: int)
    requires
        i64::MIN * 1_000_000_000 <= total <= i64::MAX * 1_000_000_000 + 999_999_999,
    ensures
        ({
            let ts = Timespec {
                sec: (total / 1_000_000_000) as i64,
                nsec: (total % 1_000_000_000) as i32,
            };
            ts.wf() && ts.as_nanos() == total
        }),
{
    vstd::arithmetic::div_mod::lemma_fundamental_div_mod(total, 1_000_000_000);
    vstd::arithmetic::div_mod::lemma_div_is_ordered(
        i64::MIN * 1_000_000_000, total, 1_000_000_000);
    vstd::arithmetic::div_mod::lemma_fundamental_div_mod_converse(
        i64::MIN * 1_000_000_000, 1_000_000_000, i64::MIN as int, 0);
    vstd::arithmetic::div_mod::lemma_div_is_ordered(
        total, i64::MAX * 1_000_000_000 + 999_999_999, 1_000_000_000);
    vstd::arithmetic::div_mod::lemma_fundamental_div_mod_converse(
        i64::MAX * 1_000_000_000 + 999_999_999, 1_000_000_000, i64::MAX as int, 999_999_999);
}

/// Returns the specified time in UTC.
pub fn at_utc(clock: Timespec) -> (r: Tm)
    ensures
        -TM_SEC_LIMIT <= clock.sec <= TM_SEC_LIMIT ==> decomposes(clock, 0, r),
        !(-TM_SEC_LIMIT <= clock.sec <= TM_SEC_LIMIT) ==> r == empty_tm_spec(),
{
    at_offset(clock, 0)
}

/// Days from the epoch to the first day of month `m` of year `y`.
pub fn days_from_civil_month(y: i64, m: i64) -> (days: i64)
    requires
        -3_000_000_000 <= y <= 3_000_000_000,
        0 <= m < 12,
    ensures
        days == days_from_civil(y as int, m as int, 1),
        -1_100_000_000_000 <= days <= 1_100_000_000_000,
{
    let t4: i64 = floor_div_i64(y + 3, 4);
    let t100: i64 = floor_div_i64(y + 99, 100);
    let t400: i64 = floor_div_i64(y + 399, 400);
    let dby: i64 = 365 * y + t4 - t100 + t400;
    let leap = is_leap_year(y);
    let dbm: i64 = if m == 0 {
        0
    } else if m == 1 {
        31
    } else if m == 2 {
        59
    } else if m == 3 {
        90
    } else if m == 4 {
        120
    } else if m == 5 {
        151
    } else if m == 6 {
        181
    } else if m == 7 {
        212
    } else if m == 8 {
        243
    } else if m == 9 {
        273
    } else if m == 10 {
        304
    } else {
        334
    };
    let dbm: i64 = if leap && m >= 2 {
        dbm + 1
    } else {
        dbm
    };
    proof {
        if y >= 0 {
            lemma_dby_bounds(0, y as int);
        } else {
            lemma_dby_bounds(y as int, 0);
        }
    }
    dby + dbm - EPOCH_DAYS
}

/// The seconds from the epoch denoted by the broken-down fields of
/// `tm`, read against its own `tm_utcoff`.
pub fn tm_to_secs(tm: &Tm) -> (sec: i64)
    ensures
        sec == tm_to_secs_spec(*tm),
        -100_000_000_000_000_000 <= sec <= 100_000_000_000_000_000,
{
    let carry: i64 = floor_div_i64(tm.tm_mon as i64, 12);
    let mon: i64 = floor_mod_i64(tm.tm_mon as i64, 12);
    let y: i64 = tm.tm_year as i64 + 1900 + carry;
    let days: i64 = days_from_civil_month(y, mon) + (tm.tm_mday as i64 - 1);
    days * 86400 + tm.tm_hour as i64 * 3600 + tm.tm_min as i64 * 60 + tm.tm_sec as i64
        - tm.tm_utcoff as i64
}

impl Tm {
    /// Converts the broken-down fields, read against `tm_utcoff`, to the
    /// seconds and nanoseconds from the epoch.
    pub fn to_timespec(&self) -> (ts: Timespec)
        requires
            0 <= self.tm_nsec < 1_000_000_000,
        ensures
            ts.sec == tm_to_secs_spec(*self),
            ts.nsec == self.tm_nsec,
            ts.wf(),
    {
        let sec = tm_to_secs(self);
        Timespec { sec, nsec: self.tm_nsec }
    }

    /// Shifts the time forward by a span; the result is in UTC.
    pub fn add(&self, other: &Duration) -> (r: Tm)
        requires
            0 <= self.tm_nsec < 1_000_000_000,
            other.wf(),
            i64::MIN * 1_000_000_000 <= tm_to_secs_spec(*self) * 1_000_000_000 + self.tm_nsec
                + other.total_nanos() <= i64::MAX * 1_000_000_000 + 999_999_999,
        ensures
            ({
                let total = tm_to_secs_spec(*self) * 1_000_000_000 + self.tm_nsec
                    + other.total_nanos();
                let ts = Timespec {
                    sec: (total / 1_000_000_000) as i64,
                    nsec: (total % 1_000_000_000) as i32,
                };
                &&& (-TM_SEC_LIMIT <= ts.sec <= TM_SEC_LIMIT ==> decomposes(ts, 0, r))
                &&& (!(-TM_SEC_LIMIT <= ts.sec <= TM_SEC_LIMIT) ==> r == empty_tm_spec())
            }),
    {
        let ts2 = self.to_timespec().add(other);
        proof {
            let total = tm_to_secs_spec(*self) * 1_000_000_000 + self.tm_nsec
                + other.total_nanos();
            lemma_split_total(total);
            crate::lemma_timespec_unique(
                ts2,
                Timespec {
                    sec: (total / 1_000_000_000) as i64,
                    nsec: (total % 1_000_000_000) as i32,
                },
            );
        }
        at_utc(ts2)
    }

    /// Shifts the time backward by a span; the result is in UTC.
    pub fn sub(&self, other: &Duration) -> (r: Tm)
        requires
            0 <= self.tm_nsec < 1_000_000_000,
            other.wf(),
            i64::MIN * 1_000_000_000 <= tm_to_secs_spec(*self) * 1_000_000_000 + self.tm_nsec
                - other.total_nanos() <= i64::MAX * 1_000_000_000 + 999_999_999,
        ensures
            ({
                let total = tm_to_secs_spec(*self) * 1_000_000_000 + self.tm_nsec
                    - other.total_nanos();
                let ts = Timespec {
                    sec: (total / 1_000_000_000) as i64,
                    nsec: (total % 1_000_000_000) as i32,
                };
                &&& (-TM_SEC_LIMIT <= ts.sec <= TM_SEC_LIMIT ==> decomposes(ts, 0, r))
                &&& (!(-TM_SEC_LIMIT <= ts.sec <= TM_SEC_LIMIT) ==> r == empty_tm_spec())
            }),
    {
        let ts2 = self.to_timespec().sub(other);
        proof {
            let total = tm_to_secs_spec(*self) * 1_000_000_000 + self.tm_nsec
                - other.total_nanos();
            lemma_split_total(total);
            crate::lemma_timespec_unique(
                ts2,
                Timespec {
                    sec: (total / 1_000_000_000) as i64,
                    nsec: (total % 1_000_000_000) as i32,
                },
            );
        }
        at_utc(ts2)
    }

    /// Converts the time to UTC.
    pub fn to_utc(&self) -> (r: Tm)
        requires
            0 <= self.tm_nsec < 1_000_000_000,
        ensures
            ({
                let ts = Timespec { sec: tm_to_secs_spec(*self) as i64, nsec: self.tm_nsec };
                &&& (-TM_SEC_LIMIT <= ts.sec <= TM_SEC_LIMIT ==> decomposes(ts, 0, r))
                &&& (!(-TM_SEC_LIMIT <= ts.sec <= TM_SEC_LIMIT) ==> r == empty_tm_spec())
            }),
    {
        at_utc(self.to_timespec())
    }
}

/// Ordering of broken-down times goes through their absolute instants,
/// so two representations of one instant in different zones compare
/// equal by order even though `==` (field-by-field) tells them apart.
/// A value whose nanosecond field is out of range denotes no instant
/// and compares as `None`.
impl PartialOrd for Tm {
    fn partial_cmp(&self, other: &Tm) -> (r: Option<core::cmp::Ordering>) {
        if !(0 <= self.tm_nsec && self.tm_nsec < 1_000_000_000) || !(0 <= other.tm_nsec
            && other.tm_nsec < 1_000_000_000) {
            return None;
        }
        let a = self.to_timespec();
        let b = other.to_timespec();
        if a.sec < b.sec || (a.sec == b.sec && a.nsec < b.nsec) {
            Some(core::cmp::Ordering::Less)
        } else if a.sec == b.sec && a.nsec == b.nsec {
            Some(core::cmp::Ordering::Equal)
        } else {
            Some(core::cmp::Ordering::Greater)
        }
    }
}

impl vstd::std_specs::cmp::PartialOrdSpecImpl for Tm {
    open spec fn obeys_partial_cmp_spec() -> bool {
        true
    }

    open spec fn partial_cmp_spec(&self, other: &Tm) -> Option<core::cmp::Ordering> {
        if !(0 <= self.tm_nsec < 1_000_000_000) || !(0 <= other.tm_nsec < 1_000_000_000) {
            None
        } else {
            let a = tm_to_secs_spec(*self);
            let b = tm_to_secs_spec(*other);
            if a < b || (a == b && self.tm_nsec < other.tm_nsec) {
                Some(core::cmp::Ordering::Less)
            } else if a == b && self.tm_nsec == other.tm_nsec {
                Some(core::cmp::Ordering::Equal)
            } else {
                Some(core::cmp::Ordering::Greater)
            }
        }
    }
}

} // verus!
