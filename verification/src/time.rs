//! Lengths of time.

use vstd::prelude::*;

verus! {

/// Nanoseconds in a second.
pub const NANOS_PER_SEC: u128 = 1_000_000_000;

/// Nanoseconds in a millisecond.
pub const NANOS_PER_MILLI: u128 = 1_000_000;

/// Longest length of time that a clock reports: all the seconds of a `u64`.
pub const MAX_NANOS: u128 = 18_446_744_073_709_551_615_999_999_999;

/// A length of time, to the nanosecond.
#[derive(Clone, Copy, PartialEq, Eq, Structural, PartialOrd, Ord, Hash, Debug)]
pub struct Duration {
    pub nanos: u128,
}

impl Duration {
    /// No time at all.
    pub fn zero() -> (d: Duration)
        ensures
            d.nanos == 0,
    {
        Duration { nanos: 0 }
    }

    /// Whole seconds.
    pub fn from_secs(secs: u64) -> (d: Duration)
        ensures
            d.nanos == secs * NANOS_PER_SEC,
    {
        Duration { nanos: secs as u128 * NANOS_PER_SEC }
    }

    /// Whole milliseconds.
    pub fn from_millis(millis: u64) -> (d: Duration)
        ensures
            d.nanos == millis * NANOS_PER_MILLI,
    {
        Duration { nanos: millis as u128 * NANOS_PER_MILLI }
    }

    /// Whole seconds, rounded down.
    pub fn as_secs(&self) -> (secs: u128)
        ensures
            secs == self.nanos as int / NANOS_PER_SEC as int,
    {
        self.nanos / NANOS_PER_SEC
    }

    /// Whole milliseconds, rounded down.
    pub fn as_millis(&self) -> (millis: u128)
        ensures
            millis == self.nanos as int / NANOS_PER_MILLI as int,
    {
        self.nanos / NANOS_PER_MILLI
    }

    /// The two lengths together.
    pub fn plus(&self, other: Duration) -> (d: Duration)
        requires
            self.nanos + other.nanos <= u128::MAX,
        ensures
            d.nanos == self.nanos + other.nanos,
    {
        Duration { nanos: self.nanos + other.nanos }
    }

    /// This length and `secs` seconds, or the longest there is.
    pub open spec fn spec_plus_secs(self, secs: u64) -> Duration {
        if self.nanos + secs * NANOS_PER_SEC > u128::MAX {
            Duration { nanos: u128::MAX }
        } else {
            Duration { nanos: (self.nanos + secs * NANOS_PER_SEC) as u128 }
        }
    }

    /// This length and `secs` seconds, or the longest there is.
    pub fn plus_secs(&self, secs: u64) -> (d: Duration)
        ensures
            d == self.spec_plus_secs(secs),
    {
        let more: u128 = secs as u128 * NANOS_PER_SEC;
        if self.nanos > u128::MAX - more {
            Duration { nanos: u128::MAX }
        } else {
            Duration { nanos: self.nanos + more }
        }
    }

    /// How much longer this length is than `other`; zero where it is not.
    pub open spec fn spec_saturating_sub(self, other: Duration) -> int {
        if self.nanos >= other.nanos {
            self.nanos - other.nanos
        } else {
            0
        }
    }

    /// How much longer this length is than `other`; zero where it is not.
    pub fn saturating_sub(&self, other: Duration) -> (d: Duration)
        ensures
            d.nanos == self.spec_saturating_sub(other),
    {
        if self.nanos >= other.nanos {
            Duration { nanos: self.nanos - other.nanos }
        } else {
            Duration { nanos: 0 }
        }
    }
}

/// Adding seconds moves a time on by just that, unless it leaves the range; the
/// difference of two times is what the later has more, and never negative.
pub proof fn times_add_and_subtract(a: Duration, b: Duration, secs: u64)
    ensures
        a.nanos + secs * 1_000_000_000 <= u128::MAX ==> a.spec_plus_secs(secs).nanos == a.nanos + secs * 1_000_000_000,
        a.nanos + secs * 1_000_000_000 > u128::MAX ==> a.spec_plus_secs(secs).nanos == u128::MAX,
        a.nanos >= b.nanos ==> b.nanos + a.spec_saturating_sub(b) == a.nanos,
        a.nanos < b.nanos ==> a.spec_saturating_sub(b) == 0,
{
}

} // verus!
