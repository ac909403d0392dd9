//! Lengths of time, counted in nanoseconds.

use vstd::prelude::*;

verus! {

/// Nanoseconds in one millisecond.
pub const NANOS_PER_MILLI: u128 = 1_000_000;

/// A length of time: a round-trip time, the budget of a round, or the time
/// that has passed since a round's timer was armed.
#[derive(Clone, Copy, Debug, PartialEq, Eq, Structural)]
pub struct TimeSpan {
    pub nanos: u128,
}

impl TimeSpan {
    /// The span of `millis` milliseconds.
    pub fn from_millis(millis: u64) -> (span: TimeSpan)
        ensures
            span.nanos == millis * NANOS_PER_MILLI,
    {
        TimeSpan { nanos: (millis as u128) * NANOS_PER_MILLI }
    }

    /// The span of `nanos` nanoseconds.
    pub fn from_nanos(nanos: u128) -> (span: TimeSpan)
        ensures
            span.nanos == nanos,
    {
        TimeSpan { nanos }
    }

    /// The length of this span in nanoseconds.
    pub fn as_nanos(self) -> (nanos: u128)
        ensures
            nanos == self.nanos,
    {
        self.nanos
    }

    /// What is left of `self` once `other` is taken away, and zero if `other`
    /// is the longer one.
    pub open spec fn spec_saturating_sub(self, other: TimeSpan) -> TimeSpan {
        if self.nanos >= other.nanos {
            TimeSpan { nanos: (self.nanos - other.nanos) as u128 }
        } else {
            TimeSpan { nanos: 0 }
        }
    }

    /// What is left of `self` once `other` is taken away, and zero if `other`
    /// is the longer one.
    #[verifier::when_used_as_spec(spec_saturating_sub)]
    pub fn saturating_sub(self, other: TimeSpan) -> (left: TimeSpan)
        ensures
            left == self.spec_saturating_sub(other),
    {
        if self.nanos >= other.nanos {
            TimeSpan { nanos: self.nanos - other.nanos }
        } else {
            TimeSpan { nanos: 0 }
        }
    }

    /// Whether `self` is at least as long as `other`.
    pub open spec fn spec_reaches(self, other: TimeSpan) -> bool {
        self.nanos >= other.nanos
    }

    /// Whether `self` is at least as long as `other`.
    #[verifier::when_used_as_spec(spec_reaches)]
    pub fn reaches(self, other: TimeSpan) -> (yes: bool)
        ensures
            yes == self.spec_reaches(other),
    {
        self.nanos >= other.nanos
    }
}

} // verus!
