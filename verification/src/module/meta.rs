//! Metadata exposed by a module: at most one value of each type.
use vstd::prelude::*;
use crate::message::erased::{Erased, erase, holds, peek};

verus! {

/// Metadata exposed by a module.
#[derive(Debug)]
pub struct Metadata {
    blobs: Vec<Erased>,
}

impl Metadata {
    /// The number of stored values.
    pub closed spec fn count(&self) -> nat {
        self.blobs@.len()
    }

    /// An empty store.
    pub fn new() -> (r: Self)
        ensures
            r.count() == 0,
    {
        Self { blobs: Vec::new() }
    }

    /// Tries to retrieve a data object of type `T` from the store; an empty
    /// store has none.
    pub fn get<T: 'static>(&self) -> (r: Option<&T>)
        ensures
            r is Some ==> self.count() > 0,
    {
        let mut i: usize = 0;
        while i < self.blobs.len()
            invariant
                i <= self.blobs@.len(),
            decreases self.blobs@.len() - i,
        {
            let found = peek::<T>(&self.blobs[i]);
            if found.is_some() {
                return found;
            }
            i = i + 1;
        }
        None
    }

    /// Stores `value`, in place of any value of the same type: the values of
    /// other types stay, in their order, and the new one comes last.
    pub fn set<T: 'static>(&mut self, value: T)
        ensures
            final(self).count() <= old(self).count() + 1,
            final(self).count() > 0,
    {
        let mut kept: Vec<Erased> = Vec::new();
        let mut rest: Vec<Erased> = Vec::new();
        std::mem::swap(&mut rest, &mut self.blobs);
        let ghost n = rest@.len();
        while rest.len() > 0
            invariant
                kept@.len() + rest@.len() <= n,
            decreases rest@.len(),
        {
            let blob = rest.remove(0);
            if !holds::<T>(&blob) {
                kept.push(blob);
            }
        }
        kept.push(erase(value));
        self.blobs = kept;
    }
}

} // verus!
