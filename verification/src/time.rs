//! Points in time, counted from the Unix epoch.

use vstd::prelude::*;

verus! {

/// Nanoseconds in one second.
pub const NANOS_PER_SEC: u32 = 1_000_000_000;

/// A point in time: whole seconds since the Unix epoch and the nanoseconds
/// that follow them.
#[derive(Clone, Copy, Debug, PartialEq, Eq, Structural)]
pub struct Timestamp {
    pub secs: u64,
    pub nanos: u32,
}

impl Timestamp {
    /// The nanosecond count stays below one second.
    pub open spec fn is_normal(self) -> bool {
        self.nanos < NANOS_PER_SEC
    }

    /// Nanoseconds since the epoch.
    pub open spec fn total_nanos(self) -> nat {
        (self.secs as nat) * (NANOS_PER_SEC as nat) + (self.nanos as nat)
    }

    /// Nanoseconds since the epoch of `secs` seconds followed by `nanos`
    /// nanoseconds, where `nanos` may exceed one second.
    pub open spec fn nanos_of(secs: u64, nanos: u32) -> nat {
        (secs as nat) * (NANOS_PER_SEC as nat) + (nanos as nat)
    }

    /// Builds the point in time `secs` seconds and `nanos` nanoseconds after
    /// the epoch. Whole seconds held in `nanos` are carried over into the
    /// seconds; the result is `None` exactly when that carry leaves the
    /// range of `u64`.
    pub fn new(secs: u64, nanos: u32) -> (r: Option<Timestamp>)
        ensures
            r is Some <==> secs as nat + (nanos as nat) / (NANOS_PER_SEC as nat) <= u64::MAX,
            r matches Some(t) ==> {
                &&& t.is_normal()
                &&& t.secs == secs + nanos / NANOS_PER_SEC
                &&& t.nanos == nanos % NANOS_PER_SEC
                &&& t.total_nanos() == Self::nanos_of(secs, nanos)
            },
    {
        let carry: u32 = nanos / NANOS_PER_SEC;
        let rest: u32 = nanos % NANOS_PER_SEC;
        assert(nanos == carry * NANOS_PER_SEC + rest) by (nonlinear_arith)
            requires
                carry == nanos / NANOS_PER_SEC,
                rest == nanos % NANOS_PER_SEC,
        ;
        match secs.checked_add(carry as u64) {
            Some(total) => {
                assert((total as nat) * (NANOS_PER_SEC as nat) + (rest as nat) == (secs as nat) * (
                NANOS_PER_SEC as nat) + (nanos as nat)) by (nonlinear_arith)
                    requires
                        total == secs + carry,
                        nanos == carry * NANOS_PER_SEC + rest,
                ;
                Some(Timestamp { secs: total, nanos: rest })
            },
            None => None,
        }
    }
}

} // verus!
