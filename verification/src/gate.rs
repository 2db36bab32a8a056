//! The kinds of gates a module has.
use vstd::prelude::*;

verus! {

/// A kinds of operations supported on a gate.
#[derive(Debug, Clone, Copy, PartialEq, Eq, Structural, Hash)]
pub enum GateKind {
    /// Standalone gates are not connected to any gate chain
    /// at all. They act as start and endpoint of a gatechain of
    /// length 0. Messages send onto these gates will never leave
    /// the sending module.
    Standalone,
    /// Endpoint gates are at the start or end of gate chains.
    /// These gates can be used to send messages onto a gate chain.
    /// Each endpoint acts as the starting point for one direction.
    Endpoint,
    /// Transit gates are in the middle of a gate chain, connected
    /// to two other gates. These gates cannot be used to start
    /// a message sending process.
    Transit,
}

/// The kind of a gate with `connections` neighbours in its chain: none
/// makes it standalone, one an endpoint, more a transit gate.
pub open spec fn kind_of(connections: nat) -> GateKind {
    if connections == 0 {
        GateKind::Standalone
    } else if connections == 1 {
        GateKind::Endpoint
    } else {
        GateKind::Transit
    }
}

/// The kind of a gate with `connections` neighbours in its chain.
pub fn gate_kind(connections: usize) -> (r: GateKind)
    ensures
        r == kind_of(connections as nat),
{
    match connections {
        0 => GateKind::Standalone,
        1 => GateKind::Endpoint,
        _ => GateKind::Transit,
    }
}

/// A marker that only types of this crate carry.
pub trait Sealed {}

} // verus!
