//! Simulation time, counted in nanoseconds since the start of the simulation.
use vstd::prelude::*;
use std::time::Duration;

verus! {

/// The number of nanoseconds that `Duration::as_nanos` returns for `d`.
pub uninterp spec fn duration_nanos(d: Duration) -> u128;

/// The length of `d` in nanoseconds (`Duration::as_nanos`).
#[verifier::external_body]
pub(crate) fn duration_as_nanos(d: &Duration) -> (r: u128)
    ensures
        r == duration_nanos(*d),
{
    d.as_nanos()
}

/// A point in simulated time.
#[derive(Debug, Clone, Copy, PartialEq, Eq, Structural, PartialOrd, Ord, Hash)]
pub struct SimTime {
    nanos: u128,
}

impl SimTime {
    /// Nanoseconds since the start of the simulation.
    pub closed spec fn spec_nanos(&self) -> u128 {
        self.nanos
    }

    /// A time is determined by its nanoseconds.
    pub proof fn lemma_nanos(t: SimTime)
        ensures
            t == SimTime::from_nanos_spec(t.spec_nanos()),
            SimTime::from_nanos_spec(t.spec_nanos()).spec_nanos() == t.spec_nanos(),
    {
    }

    /// The point `nanos` nanoseconds after the start of the simulation.
    pub closed spec fn from_nanos_spec(nanos: u128) -> SimTime {
        SimTime { nanos }
    }

    /// The start of the simulation.
    pub fn zero() -> (r: SimTime)
        ensures
            r.spec_nanos() == 0,
    {
        SimTime { nanos: 0 }
    }

    /// The point `nanos` nanoseconds after the start of the simulation.
    pub fn from_nanos(nanos: u128) -> (r: SimTime)
        ensures
            r.spec_nanos() == nanos,
            r == SimTime::from_nanos_spec(nanos),
    {
        SimTime { nanos }
    }

    /// Nanoseconds since the start of the simulation.
    pub fn as_nanos(&self) -> (r: u128)
        ensures
            r == self.spec_nanos(),
    {
        self.nanos
    }

    /// Whether `self` lies strictly after `other`.
    pub fn is_after(&self, other: &SimTime) -> (r: bool)
        ensures
            r == (self.spec_nanos() > other.spec_nanos()),
    {
        self.nanos > other.nanos
    }
}

} // verus!
