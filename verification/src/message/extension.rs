//! Extensions that may be attached to messages: at most one value of each
//! type, kept beside the message and not counted as part of it.
use vstd::prelude::*;
use super::erased::{Erased, erase, holds, take, peek, peek_mut};

verus! {

/// Extensions that may be attached to messages.
///
/// These extensions act as additional metadata attached to a message, that
/// are not counted as a physical part of the message. Thus their size does
/// not matter.
#[derive(Debug)]
pub struct Extensions {
    extensions: Vec<Erased>,
}

impl Extensions {
    /// The number of extensions attached.
    pub closed spec fn count(&self) -> nat {
        self.extensions@.len()
    }

    /// No extensions.
    pub fn new() -> (r: Self)
        ensures
            r.count() == 0,
    {
        Self { extensions: Vec::new() }
    }

    /// Whether the extensions are empty.
    pub fn is_empty(&self) -> (r: bool)
        ensures
            r == (self.count() == 0),
    {
        self.extensions.len() == 0
    }

    /// The number of extensions attached to the message.
    pub fn len(&self) -> (r: usize)
        ensures
            r == self.count(),
    {
        self.extensions.len()
    }

    /// The position of the extension of type `T`, if there is one.
    fn position<T: 'static>(&self) -> (r: Option<usize>)
        ensures
            r matches Some(i) ==> i < self.count(),
    {
        let mut i: usize = 0;
        while i < self.extensions.len()
            invariant
                i <= self.extensions@.len(),
            decreases self.extensions@.len() - i,
        {
            if holds::<T>(&self.extensions[i]) {
                return Some(i);
            }
            i = i + 1;
        }
        None
    }

    /// Checks whether an extension of type `T` is present; never when there
    /// are none.
    pub fn has<T: 'static>(&self) -> (r: bool)
        ensures
            r ==> self.count() > 0,
    {
        self.position::<T>().is_some()
    }

    /// Adds an extension of type `T`, in place of the one of that type that
    /// was there, if any: the count grows by one at most.
    pub fn set<T: 'static>(&mut self, extension: T)
        ensures
            final(self).count() == old(self).count() || final(self).count() == old(self).count() + 1,
            final(self).count() > 0,
    {
        match self.position::<T>() {
            Some(i) => {
                self.extensions.set(i, erase(extension));
            },
            None => {
                self.extensions.push(erase(extension));
            },
        }
    }

    /// Adds an extension of type `T` if none of that type is present.
    pub fn set_if_absent<T: 'static>(&mut self, extension: T)
        ensures
            final(self).count() == old(self).count() || final(self).count() == old(self).count() + 1,
            final(self).count() > 0,
    {
        if !self.has::<T>() {
            self.set::<T>(extension);
        }
    }

    /// The extension of type `T`, if present.
    pub fn get<T: 'static>(&self) -> (r: Option<&T>)
        ensures
            r is Some ==> self.count() > 0,
    {
        match self.position::<T>() {
            Some(i) => peek::<T>(&self.extensions[i]),
            None => None,
        }
    }

    /// The extension of type `T`, if present, to be changed in place; no
    /// extension is added or removed.
    pub fn get_mut<T: 'static>(&mut self) -> (r: Option<&mut T>)
        ensures
            r is Some ==> old(self).count() > 0,
            final(self).count() == old(self).count(),
    {
        match self.position::<T>() {
            Some(i) => {
                let slot: &mut Erased = vec_slot(&mut self.extensions, i);
                peek_mut::<T>(slot)
            },
            None => None,
        }
    }

    /// Removes the extension of type `T` and hands it back; the count drops
    /// by one exactly when one was there.
    pub fn remove<T: 'static>(&mut self) -> (r: Option<T>)
        ensures
            r is Some ==> final(self).count() + 1 == old(self).count(),
            r is None ==> final(self).count() == old(self).count(),
    {
        match self.position::<T>() {
            Some(i) => {
                let e = self.extensions.remove(i);
                match take::<T>(e) {
                    Ok(v) => Some(v),
                    Err(back) => {
                        self.extensions.insert(i, back);
                        None
                    },
                }
            },
            None => None,
        }
    }

    /// Clears all extensions.
    pub fn clear(&mut self)
        ensures
            final(self).count() == 0,
    {
        self.extensions.clear();
    }
}

/// A mutable reference to the slot `i` of `v`; the other slots and the
/// length stay as they are.
fn vec_slot<E>(v: &mut Vec<E>, i: usize) -> (r: &mut E)
    requires
        i < old(v).len(),
    ensures
        *r == old(v)@[i as int],
        final(v)@ == old(v)@.update(i as int, *final(r)),
{
    &mut v[i]
}

impl Default for Extensions {
    fn default() -> (r: Self)
        ensures
            r.count() == 0,
    {
        Self::new()
    }
}

} // verus!
