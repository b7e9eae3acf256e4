//! The clock edge of the library: reading the wall clock, and opaque
//! high-resolution timestamps whose only operation is differencing.

use vstd::prelude::*;
use crate::Timespec;
use crate::duration::Duration;

verus! {

/// Relies on `SystemTime::now` and `duration_since(UNIX_EPOCH)`: the
/// wall clock now, as a duration from the epoch together with its
/// direction (`true` when before the epoch), the subsecond part below
/// one second.
#[verifier::external_body]
fn wall_clock_since_epoch() -> (r: (bool, u64, u32))
    ensures
        r.2 < 1_000_000_000,
{
    match std::time::SystemTime::now().duration_since(std::time::UNIX_EPOCH) {
        Ok(d) => (false, d.as_secs(), d.subsec_nanos()),
        Err(e) => {
            let d = e.duration();
            (true, d.as_secs(), d.subsec_nanos())
        },
    }
}

/// The `Timespec` denoted by a wall-clock reading: a duration from the
/// epoch with its direction.  Seconds beyond `i64::MAX` saturate; a
/// reading before the epoch is normalized into the two-steps-back,
/// one-step-forward form, so the nanosecond field stays non-negative.
pub fn timespec_from_wall(before_epoch: bool, secs: u64, nanos: u32) -> (ts: Timespec)
    requires
        nanos < 1_000_000_000,
    ensures
        ts.wf(),
        ({
            let mag = (if secs > i64::MAX as u64 {
                i64::MAX as int
            } else {
                secs as int
            }) * 1_000_000_000 + nanos;
            ts.as_nanos() == if before_epoch {
                -mag
            } else {
                mag
            }
        }),
{
    let s: i64 = if secs > i64::MAX as u64 {
        i64::MAX
    } else {
        secs as i64
    };
    if !before_epoch {
        Timespec::new(s, nanos as i32)
    } else if nanos > 0 {
        Timespec::new(-s - 1, 1_000_000_000 - nanos as i32)
    } else {
        Timespec::new(-s, 0)
    }
}

/// Returns the current time as a `Timespec` containing the seconds and
/// nanoseconds since 1970-01-01T00:00:00Z.
///
/// The result is the wall-clock reading normalized by
/// `timespec_from_wall`; since the reading varies with the clock, only
/// the well-formedness of the result can be promised here.
pub fn get_time() -> (ts: Timespec)
    ensures
        ts.wf(),
{
    let (before_epoch, secs, nanos) = wall_clock_since_epoch();
    timespec_from_wall(before_epoch, secs, nanos)
}

/// The 64-bit nanosecond counter value of a clock reading of whole
/// seconds and subsecond nanoseconds, wrapped at 64 bits.
pub fn counter_of(secs: u64, nanos: u32) -> (r: u64)
    ensures
        r == (secs * 1_000_000_000 + nanos) % 0x1_0000_0000_0000_0000,
{
    let t: u128 = secs as u128 * 1_000_000_000 + nanos as u128;
    (t % 0x1_0000_0000_0000_0000) as u64
}

/// Returns the current value of a high-resolution counter in
/// nanoseconds since an unspecified epoch.  The counter wraps at 64
/// bits; only differences within one run are meaningful.
///
/// The counter is `counter_of` applied to the wall clock's distance
/// from the epoch, not an OS monotonic clock: when the system clock is
/// adjusted backward, a later reading can be smaller than an earlier
/// one.
pub fn precise_time_ns() -> u64 {
    let (_before_epoch, secs, nanos) = wall_clock_since_epoch();
    counter_of(secs, nanos)
}

/// The signed span denoted by the wrapped unsigned difference `b - a`.
pub open spec fn counter_diff_ns(a: u64, b: u64) -> int {
    let w = (b - a) % 0x1_0000_0000_0000_0000;
    if w >= 0x8000_0000_0000_0000 {
        w - 0x1_0000_0000_0000_0000
    } else {
        w
    }
}

/// An opaque moment in time from the high-resolution counter.
///
/// The only operation on a `PreciseTime` is computing the `Duration`
/// between two of them.
#[derive(Copy, Clone)]
pub struct PreciseTime(pub u64);

impl PreciseTime {
    /// Returns a `PreciseTime` representing the current moment in time,
    /// read from the same wall-clock-derived counter as
    /// `precise_time_ns`, with the same caveat about clock adjustments.
    pub fn now() -> PreciseTime {
        PreciseTime(precise_time_ns())
    }

    /// Returns the span of time from `self` to `later`, read from the
    /// wrapped 64-bit difference of the two counters, so a counter
    /// wraparound between the two readings is tolerated.
    pub fn to(&self, later: PreciseTime) -> (d: Duration)
        ensures
            d.wf(),
            d.total_nanos() == counter_diff_ns(self.0, later.0),
    {
        let diff: u64 = if later.0 >= self.0 {
            later.0 - self.0
        } else {
            u64::MAX - (self.0 - later.0) + 1
        };
        proof {
            let raw = later.0 - self.0;
            if later.0 >= self.0 {
                vstd::arithmetic::div_mod::lemma_fundamental_div_mod_converse(
                    raw, 0x1_0000_0000_0000_0000, 0, raw);
            } else {
                vstd::arithmetic::div_mod::lemma_fundamental_div_mod_converse(
                    raw, 0x1_0000_0000_0000_0000, -1, raw + 0x1_0000_0000_0000_0000);
            }
        }
        let n: i64 = if diff <= i64::MAX as u64 {
            diff as i64
        } else {
            -((u64::MAX - diff) as i64) - 1
        };
        Duration::nanoseconds(n)
    }
}

} // verus!
