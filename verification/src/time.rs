//! Spans of time with nanosecond precision.

use vstd::prelude::*;

verus! {

/// The number of nanoseconds in a second.
pub const NANOS_PER_SEC: u128 = 1_000_000_000;

/// The number of nanoseconds in a millisecond.
pub const NANOS_PER_MILLI: u128 = 1_000_000;

/// The longest span, `u64::MAX` seconds and 999,999,999 nanoseconds.
pub const MAX_NANOS: u128 = 18_446_744_073_709_551_615_999_999_999;

/// A span of time of at most [`MAX_NANOS`] nanoseconds; its view is the number
/// of nanoseconds.
#[derive(Clone, Copy, Debug, PartialEq, Eq, Structural)]
pub struct Duration {
    nanos: u128,
}

impl View for Duration {
    type V = nat;

    closed spec fn view(&self) -> nat {
        self.nanos as nat
    }
}

/// `nanos` where a span can be that long, and else the longest span.
pub open spec fn saturated(nanos: nat) -> nat {
    if nanos <= MAX_NANOS {
        nanos
    } else {
        MAX_NANOS as nat
    }
}

impl Duration {
    #[verifier::type_invariant]
    spec fn in_range(self) -> bool {
        self.nanos <= MAX_NANOS
    }

    /// A span of `secs` seconds and `subsec_nanos` nanoseconds, which are less than a
    /// second.
    pub fn new(secs: u64, subsec_nanos: u32) -> (span: Duration)
        requires
            subsec_nanos < NANOS_PER_SEC,
        ensures
            span@ == secs * NANOS_PER_SEC + subsec_nanos,
    {
        Duration { nanos: secs as u128 * NANOS_PER_SEC + subsec_nanos as u128 }
    }

    /// A span of `secs` seconds.
    pub fn from_secs(secs: u64) -> (span: Duration)
        ensures
            span@ == secs * NANOS_PER_SEC,
    {
        Duration { nanos: secs as u128 * NANOS_PER_SEC }
    }

    /// A span of `millis` milliseconds.
    pub fn from_millis(millis: u64) -> (span: Duration)
        ensures
            span@ == millis * NANOS_PER_MILLI,
    {
        Duration { nanos: millis as u128 * NANOS_PER_MILLI }
    }

    /// The number of nanoseconds in the span.
    pub fn as_nanos(&self) -> (nanos: u128)
        ensures
            nanos == self@,
            nanos <= MAX_NANOS,
    {
        proof {
            use_type_invariant(self);
        }
        self.nanos
    }

    /// The span taken `factor` times, or the longest span where that is longer.
    pub fn saturating_mul(self, factor: u32) -> (span: Duration)
        ensures
            span@ == saturated((self@ * factor) as nat),
            self@ * factor <= MAX_NANOS ==> span@ == self@ * factor,
            self@ * factor > MAX_NANOS ==> span@ == MAX_NANOS,
    {
        proof {
            use_type_invariant(&self);
            assert(self.nanos * factor <= MAX_NANOS * u32::MAX) by (nonlinear_arith)
                requires
                    self.nanos <= MAX_NANOS,
                    factor <= u32::MAX,
            ;
        }
        let product: u128 = self.nanos * factor as u128;
        if product <= MAX_NANOS {
            Duration { nanos: product }
        } else {
            Duration { nanos: MAX_NANOS }
        }
    }
}

/// Two spans with the same number of nanoseconds are the same span.
pub proof fn law_span_is_its_nanos(a: Duration, b: Duration)
    requires
        a@ == b@,
    ensures
        a == b,
{
}

} // verus!
