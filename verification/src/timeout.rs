//! Lengths of time, to the nanosecond.

use vstd::prelude::*;

verus! {

/// The nanoseconds in a second.
pub const NANOS_PER_SECOND: u32 = 1_000_000_000;

/// A length of time.
#[derive(Clone, Copy, Debug, PartialEq, Eq, Structural)]
pub struct Timeout {
    secs: u64,
    nanos: u32,
}

impl View for Timeout {
    type V = nat;

    /// The length in nanoseconds.
    closed spec fn view(&self) -> nat {
        (self.secs * NANOS_PER_SECOND + self.nanos) as nat
    }
}

impl Timeout {
    /// The nanoseconds are those beyond whole seconds.
    #[verifier::type_invariant]
    spec fn whole(self) -> bool {
        self.nanos < NANOS_PER_SECOND
    }

    /// A number of seconds and nanoseconds.
    pub fn new(secs: u64, nanos: u32) -> (r: Timeout)
        requires
            secs + nanos / NANOS_PER_SECOND <= u64::MAX,
        ensures
            r@ == secs * NANOS_PER_SECOND + nanos,
    {
        Timeout {
            secs: secs + (nanos / NANOS_PER_SECOND) as u64,
            nanos: nanos % NANOS_PER_SECOND,
        }
    }

    /// A number of seconds.
    pub fn from_secs(secs: u64) -> (r: Timeout)
        ensures
            r@ == secs * NANOS_PER_SECOND,
    {
        Timeout { secs, nanos: 0 }
    }

    /// A number of milliseconds.
    pub fn from_millis(millis: u64) -> (r: Timeout)
        ensures
            r@ == millis * 1_000_000,
    {
        Timeout { secs: millis / 1000, nanos: ((millis % 1000) as u32) * 1_000_000 }
    }

    /// The whole seconds.
    pub fn as_secs(&self) -> (r: u64)
        ensures
            r == self@ / (NANOS_PER_SECOND as nat),
    {
        proof {
            use_type_invariant(self);
        }
        self.secs
    }

    /// The nanoseconds beyond the whole seconds.
    pub fn subsec_nanos(&self) -> (r: u32)
        ensures
            r == self@ % (NANOS_PER_SECOND as nat),
    {
        proof {
            use_type_invariant(self);
        }
        self.nanos
    }
}

} // verus!
