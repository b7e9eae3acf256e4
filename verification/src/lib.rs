//! Calendar time handling: absolute instants with nanosecond precision,
//! broken-down calendar time, and a `strftime`/`strptime`-style format
//! mini-language for rendering and parsing time values.

use vstd::prelude::*;

pub mod calendar;
pub mod clock;
pub mod duration;
pub mod errors;
pub mod laws;
pub mod numfmt;
pub mod parse;
pub mod render;
pub mod tm;
pub mod tmfmt;

pub use crate::duration::Duration;
pub use crate::errors::ParseError;
pub use crate::tm::Tm;
pub use crate::tm::at_offset;
pub use crate::tm::at_utc;
pub use crate::tm::empty_tm;
pub use crate::tm::now_utc;
pub use crate::clock::PreciseTime;
pub use crate::clock::counter_of;
pub use crate::clock::get_time;
pub use crate::clock::precise_time_ns;
pub use crate::clock::timespec_from_wall;
pub use crate::parse::strptime;
pub use crate::tmfmt::Fmt;
pub use crate::tmfmt::TmFmt;
pub use crate::tmfmt::strftime;

verus! {

/// Nanoseconds in one second.
pub const NSEC_PER_SEC: i32 = 1_000_000_000;

/// A record specifying a time value in seconds and nanoseconds, counted
/// from 1970-01-01T00:00:00Z.
///
/// A `Timespec` before the epoch has a negative `sec` field and a
/// non-negative `nsec` field: the instant 1.2 seconds before the epoch is
/// `Timespec { sec: -2, nsec: 800_000_000 }`.
#[derive(Copy, Clone, Debug, PartialEq, Eq, Structural, PartialOrd, Ord, Hash)]
pub struct Timespec {
    pub sec: i64,
    pub nsec: i32,
}

impl Timespec {
    /// The nanosecond field is normalized into `[0, NSEC_PER_SEC)`.
    pub open spec fn wf(self) -> bool {
        0 <= self.nsec < NSEC_PER_SEC
    }

    /// The instant as a count of nanoseconds from the epoch.
    pub open spec fn as_nanos(self) -> int {
        self.sec * (NSEC_PER_SEC as int) + self.nsec
    }

    pub fn new(sec: i64, nsec: i32) -> (r: Timespec)
        requires
            0 <= nsec < NSEC_PER_SEC,
        ensures
            r.sec == sec,
            r.nsec == nsec,
            r.wf(),
    {
        Timespec { sec, nsec }
    }

    /// Shifts the instant forward by a span.
    pub fn add(&self, other: &Duration) -> (r: Timespec)
        requires
            self.wf(),
            other.wf(),
            i64::MIN * 1_000_000_000 <= self.as_nanos() + other.total_nanos()
                <= i64::MAX * 1_000_000_000 + 999_999_999,
        ensures
            r.wf(),
            r.as_nanos() == self.as_nanos() + other.total_nanos(),
    {
        let mut sec: i128 = self.sec as i128 + other.secs as i128;
        let mut nsec: i32 = self.nsec + other.nanos;
        if nsec >= NSEC_PER_SEC {
            nsec = nsec - NSEC_PER_SEC;
            sec = sec + 1;
        } else if nsec < 0 {
            nsec = nsec + NSEC_PER_SEC;
            sec = sec - 1;
        }
        proof {
            lemma_normalized_sec_fits(
                sec as int, nsec as int, self.as_nanos() + other.total_nanos());
        }
        Timespec { sec: sec as i64, nsec }
    }

    /// Shifts the instant backward by a span.
    pub fn sub(&self, other: &Duration) -> (r: Timespec)
        requires
            self.wf(),
            other.wf(),
            i64::MIN * 1_000_000_000 <= self.as_nanos() - other.total_nanos()
                <= i64::MAX * 1_000_000_000 + 999_999_999,
        ensures
            r.wf(),
            r.as_nanos() == self.as_nanos() - other.total_nanos(),
    {
        let mut sec: i128 = self.sec as i128 - other.secs as i128;
        let mut nsec: i32 = self.nsec - other.nanos;
        if nsec >= NSEC_PER_SEC {
            nsec = nsec - NSEC_PER_SEC;
            sec = sec + 1;
        } else if nsec < 0 {
            nsec = nsec + NSEC_PER_SEC;
            sec = sec - 1;
        }
        proof {
            lemma_normalized_sec_fits(
                sec as int, nsec as int, self.as_nanos() - other.total_nanos());
        }
        Timespec { sec: sec as i64, nsec }
    }

    /// The signed span from `other` to `self`.
    pub fn difference(&self, other: &Timespec) -> (d: Duration)
        requires
            self.wf(),
            other.wf(),
            i64::MIN + 1 <= self.sec - other.sec <= i64::MAX - 1,
        ensures
            d.wf(),
            d.total_nanos() == self.as_nanos() - other.as_nanos(),
    {
        let mut secs: i64 = self.sec - other.sec;
        let mut nanos: i32 = self.nsec - other.nsec;
        if secs > 0 && nanos < 0 {
            secs = secs - 1;
            nanos = nanos + NSEC_PER_SEC;
        } else if secs < 0 && nanos > 0 {
            secs = secs + 1;
            nanos = nanos - NSEC_PER_SEC;
        }
        Duration { secs, nanos }
    }
}

/// A normalized `(sec, nsec)` split of an instant that fits the
/// representable range has its seconds in the `i64` range.
proof fn lemma_normalized_sec_fits(sec: int, nsec: int, total: int)
    requires
        0 <= nsec < 1_000_000_000,
        total == sec * 1_000_000_000 + nsec,
        i64::MIN * 1_000_000_000 <= total <= i64::MAX * 1_000_000_000 + 999_999_999,
    ensures
        i64::MIN <= sec <= i64::MAX,
{
    if sec < i64::MIN {
        assert(sec * 1_000_000_000 <= (i64::MIN - 1) * 1_000_000_000) by (nonlinear_arith)
            requires
                sec <= i64::MIN - 1,
        ;
    }
    if sec > i64::MAX {
        assert(sec * 1_000_000_000 >= (i64::MAX + 1) * 1_000_000_000) by (nonlinear_arith)
            requires
                sec >= i64::MAX + 1,
        ;
    }
}

/// Two normalized instants with the same nanosecond count are equal.
pub proof fn lemma_timespec_unique(a: Timespec, b: Timespec)
    requires
        a.wf(),
        b.wf(),
        a.as_nanos() == b.as_nanos(),
    ensures
        a == b,
{
    if a.sec < b.sec {
        assert((a.sec + 1) * 1_000_000_000 <= b.sec * 1_000_000_000) by (nonlinear_arith)
            requires
                a.sec + 1 <= b.sec,
        ;
    }
    if b.sec < a.sec {
        assert((b.sec + 1) * 1_000_000_000 <= a.sec * 1_000_000_000) by (nonlinear_arith)
            requires
                b.sec + 1 <= a.sec,
        ;
    }
}

} // verus!
