//! Signed spans of time with nanosecond precision.

use vstd::prelude::*;

verus! {

pub const NSEC_PER_SEC_I64: i64 = 1_000_000_000;

/// A signed span of time, held as whole seconds plus a sub-second
/// nanosecond remainder.
///
/// The remainder always has magnitude below one second and never has the
/// opposite sign of the seconds field, so each span has exactly one
/// representation.
#[derive(Copy, Clone, Debug, PartialEq, Eq, Structural)]
pub struct Duration {
    pub secs: i64,
    pub nanos: i32,
}

impl Duration {
    /// The representation invariant: the nanosecond remainder is
    /// sub-second and agrees in sign with the seconds field.
    pub open spec fn wf(self) -> bool {
        &&& -1_000_000_000 < self.nanos < 1_000_000_000
        &&& self.secs > 0 ==> self.nanos >= 0
        &&& self.secs < 0 ==> self.nanos <= 0
    }

    /// The span as a count of nanoseconds.
    pub open spec fn total_nanos(self) -> int {
        self.secs * 1_000_000_000 + self.nanos
    }

    /// A span of `s` whole seconds.
    pub fn seconds(s: i64) -> (d: Duration)
        ensures
            d.wf(),
            d.total_nanos() == s * 1_000_000_000,
    {
        Duration { secs: s, nanos: 0 }
    }

    /// A span of `n` nanoseconds.
    pub fn nanoseconds(n: i64) -> (d: Duration)
        ensures
            d.wf(),
            d.total_nanos() == n,
    {
        let secs = n / NSEC_PER_SEC_I64;
        let nanos = (n % NSEC_PER_SEC_I64) as i32;
        proof {
            assert(n == (n / 1_000_000_000) * 1_000_000_000 + n % 1_000_000_000);
        }
        Duration { secs, nanos }
    }

    /// The whole seconds of the span, rounded toward zero.
    pub fn num_seconds(&self) -> (s: i64)
        requires
            self.wf(),
        ensures
            s == self.secs,
            self.total_nanos() == s * 1_000_000_000 + self.nanos,
    {
        self.secs
    }

    /// The span as nanoseconds, or `None` if that count does not fit in
    /// an `i64`.
    pub fn num_nanoseconds(&self) -> (r: Option<i64>)
        requires
            self.wf(),
        ensures
            (i64::MIN <= self.total_nanos() <= i64::MAX) <==> r is Some,
            r is Some ==> r->0 == self.total_nanos(),
    {
        if self.secs > 9_223_372_036 || self.secs < -9_223_372_036 {
            None
        } else if self.secs == 9_223_372_036 && self.nanos > 854_775_807 {
            None
        } else if self.secs == -9_223_372_036 && self.nanos < -854_775_808 {
            None
        } else {
            Some(self.secs * NSEC_PER_SEC_I64 + self.nanos as i64)
        }
    }

    /// The sum of two spans.
    pub fn add(&self, other: &Duration) -> (d: Duration)
        requires
            self.wf(),
            other.wf(),
            i64::MIN * 1_000_000_000 <= self.total_nanos() + other.total_nanos()
                <= i64::MAX * 1_000_000_000 + 999_999_999,
        ensures
            d.wf(),
            d.total_nanos() == self.total_nanos() + other.total_nanos(),
    {
        let mut secs: i128 = self.secs as i128 + other.secs as i128;
        let mut nanos: i32 = self.nanos + other.nanos;
        if nanos >= 1_000_000_000 {
            nanos = nanos - 1_000_000_000;
            secs = secs + 1;
        } else if nanos <= -1_000_000_000 {
            nanos = nanos + 1_000_000_000;
            secs = secs - 1;
        }
        if secs > 0 && nanos < 0 {
            secs = secs - 1;
            nanos = nanos + 1_000_000_000;
        } else if secs < 0 && nanos > 0 {
            secs = secs + 1;
            nanos = nanos - 1_000_000_000;
        }
        proof {
            let t = self.total_nanos() + other.total_nanos();
            assert(t == secs * 1_000_000_000 + nanos);
            assert(secs >= i64::MIN) by {
                if secs < i64::MIN {
                    assert(secs * 1_000_000_000 <= (i64::MIN - 1) * 1_000_000_000)
                        by (nonlinear_arith)
                        requires
                            secs <= i64::MIN - 1,
                    ;
                }
            }
            assert(secs <= i64::MAX) by {
                if secs > i64::MAX {
                    assert(secs * 1_000_000_000 >= (i64::MAX + 1) * 1_000_000_000)
                        by (nonlinear_arith)
                        requires
                            secs >= i64::MAX + 1,
                    ;
                }
            }
        }
        Duration { secs: secs as i64, nanos }
    }
}

/// Bounds the nanosecond count of a well-formed span by its seconds field.
pub proof fn lemma_rep_bound(d: Duration)
    requires
        d.wf(),
    ensures
        (d.secs - 1) * 1_000_000_000 < d.total_nanos() < (d.secs + 1) * 1_000_000_000,
{
}

/// A well-formed representation is determined by its nanosecond count.
pub proof fn lemma_rep_unique(a: Duration, b: Duration)
    requires
        a.wf(),
        b.wf(),
        a.total_nanos() == b.total_nanos(),
    ensures
        a == b,
{
    lemma_rep_bound(a);
    lemma_rep_bound(b);
    assert(a.secs == b.secs) by {
        if a.secs < b.secs {
            assert(a.total_nanos() < (a.secs + 1) * 1_000_000_000);
            assert((a.secs + 1) * 1_000_000_000 <= b.secs * 1_000_000_000) by (nonlinear_arith)
                requires
                    a.secs + 1 <= b.secs,
            ;
            assert(b.secs * 1_000_000_000 <= b.total_nanos());
        } else if b.secs < a.secs {
            assert(b.total_nanos() < (b.secs + 1) * 1_000_000_000);
            assert((b.secs + 1) * 1_000_000_000 <= a.secs * 1_000_000_000) by (nonlinear_arith)
                requires
                    b.secs + 1 <= a.secs,
            ;
            assert(a.secs * 1_000_000_000 <= a.total_nanos());
        }
    }
}

} // verus!
