//! A box for a value of any type, which can be tested for its type, copied
//! and taken apart again.
use vstd::prelude::*;
use super::erased::{Erased, erase, holds, take, peek, peek_mut};

verus! {

/// A box holding a value of any type.
#[derive(Debug)]
pub struct AnyBox {
    inner: Erased,
}

impl AnyBox {
    /// Boxes `val`.
    pub fn new<T: 'static>(val: T) -> (r: Self) {
        Self { inner: erase(val) }
    }

    /// A new box with a clone of the value, when it is of type `T`.
    pub fn try_dup<T: 'static + Clone>(&self) -> (r: Option<Self>) {
        match peek::<T>(&self.inner) {
            Some(v) => Some(Self { inner: erase(v.clone()) }),
            None => None,
        }
    }

    /// Whether the value is of type `T`.
    pub fn can_cast<T: 'static>(&self) -> (r: bool) {
        holds::<T>(&self.inner)
    }

    /// The value, when it is of type `T`; otherwise the box comes back
    /// unchanged.
    pub fn try_cast<T: 'static>(self) -> (r: Result<T, Self>)
        ensures
            r matches Err(back) ==> back == self,
    {
        let AnyBox { inner } = self;
        match take::<T>(inner) {
            Ok(v) => Ok(v),
            Err(inner) => Err(AnyBox { inner }),
        }
    }

    /// A reference to the value, when it is of type `T`.
    pub fn try_cast_ref<T: 'static>(&self) -> (r: Option<&T>) {
        peek::<T>(&self.inner)
    }

    /// A mutable reference to the value, when it is of type `T`.
    pub fn try_cast_mut<T: 'static>(&mut self) -> (r: Option<&mut T>) {
        peek_mut::<T>(&mut self.inner)
    }
}

} // verus!
