//! Simulation modules: their identifiers, how they behave when they fail,
//! the errors of referring to one another, and the metadata they expose.
use vstd::prelude::*;

pub mod ctx;
pub mod error;
pub mod func;
pub mod meta;
pub mod unwind;

verus! {

/// A unique identifier for a module.
#[derive(Debug, Clone, Copy, PartialEq, Eq, Structural, PartialOrd, Ord, Hash)]
pub struct ModuleId(pub u16);

/// The first identifier that is handed out; those below are reserved.
pub const FIRST_MODULE_ID: u16 = 0xff;

impl ModuleId {
    /// A general purpose ID indicating None.
    pub fn null() -> (r: ModuleId)
        ensures
            r.0 == 0,
    {
        ModuleId(0)
    }

    /// Generates a unique module ID: the counter's value, after which the
    /// counter moves on by one, wrapping around at the end of the range.
    pub fn gen(counter: &mut ModuleIdCounter) -> (r: Self)
        ensures
            r.0 == old(counter).next,
            final(counter).next == next_id(old(counter).next),
    {
        let id = counter.next;
        counter.next = counter.next.wrapping_add(1);
        ModuleId(id)
    }
}

/// The source of module identifiers of one simulation.
#[derive(Debug)]
pub struct ModuleIdCounter {
    /// The identifier that is handed out next.
    pub next: u16,
}

impl ModuleIdCounter {
    /// A counter that starts at the first identifier that is not reserved.
    pub fn new() -> (r: Self)
        ensures
            r.next == FIRST_MODULE_ID,
    {
        ModuleIdCounter { next: FIRST_MODULE_ID }
    }
}

/// The identifier after `n`, wrapping around at the end of the range.
pub open spec fn next_id(n: u16) -> u16 {
    if n == u16::MAX {
        0
    } else {
        (n + 1) as u16
    }
}

/// The counter's value after `steps` generations starting from `start`.
pub open spec fn next_after(start: u16, steps: nat) -> u16
    decreases steps,
{
    if steps == 0 {
        start
    } else {
        next_id(next_after(start, (steps - 1) as nat))
    }
}

proof fn lemma_next_after_mod(start: u16, steps: nat)
    ensures
        next_after(start, steps) as int == (start as int + steps) % 0x10000,
    decreases steps,
{
    if steps > 0 {
        lemma_next_after_mod(start, (steps - 1) as nat);
        let prev = next_after(start, (steps - 1) as nat) as int;
        assert(prev == (start as int + steps - 1) % 0x10000);
        assert((start as int + steps) % 0x10000 == (prev + 1) % 0x10000) by (nonlinear_arith)
            requires
                prev == (start as int + steps - 1) % 0x10000,
        ;
    }
}

/// A module identifier comes back only after a full round of the range:
/// the counter's value after between one and `u16::MAX` generations differs
/// from where it started, so that many identifiers in a row are distinct.
pub proof fn law_generated_ids_differ(start: u16, steps: nat)
    requires
        0 < steps <= u16::MAX,
    ensures
        next_after(start, steps) != start,
{
    lemma_next_after_mod(start, steps);
}

} // verus!
