//! A message body that stores a value of any type, with its length.
use vstd::prelude::*;
use std::fmt::Debug;
use super::MessageBody;
use super::erased::{
    Erased, ClonableErased, erase, erase_clonable, clone_erased, clonable_value, peek_mut_clonable,
    holds, take, take_clonable, peek, peek_mut,
};

verus! {

/// What a body holds: a value that can be cloned, or one that cannot.
#[derive(Debug)]
enum BodyData {
    Plain(Erased),
    Clonable(ClonableErased),
}

/// A message body, which stores an arbitrary value together with the length
/// the value counts for on a link.
#[derive(Debug)]
pub struct Body {
    data: BodyData,
    length: usize,
}

impl Body {
    /// The length the body counts for, in bytes.
    pub closed spec fn spec_length(&self) -> usize {
        self.length
    }

    /// Whether the value of the body can be cloned.
    pub closed spec fn is_clonable(&self) -> bool {
        self.data is Clonable
    }

    /// A body holding a cloneable and debuggable `value`, as long as the
    /// value measures itself.
    pub fn new<T: MessageBody + Clone + Debug + 'static>(value: T) -> (r: Self)
        requires
            value.spec_byte_len() <= usize::MAX,
        ensures
            r.spec_length() == value.spec_byte_len(),
            r.is_clonable(),
    {
        let length = value.byte_len();
        Self { data: BodyData::Clonable(erase_clonable(value)), length }
    }

    /// A body holding a cloneable and debuggable `value`, counting for
    /// `length` bytes.
    pub fn new_with_len<T: Clone + Debug + 'static>(value: T, length: usize) -> (r: Self)
        ensures
            r.spec_length() == length,
            r.is_clonable(),
    {
        Self { data: BodyData::Clonable(erase_clonable(value)), length }
    }

    /// A body holding a debuggable `value` that cannot be cloned, as long as
    /// the value measures itself.
    pub fn new_non_clonable<T: MessageBody + Debug + 'static>(value: T) -> (r: Self)
        requires
            value.spec_byte_len() <= usize::MAX,
        ensures
            r.spec_length() == value.spec_byte_len(),
            !r.is_clonable(),
    {
        let length = value.byte_len();
        Self { data: BodyData::Plain(erase(value)), length }
    }

    /// A body holding a cloneable `value` that cannot be printed; it counts
    /// for the size of its type in memory.
    pub fn new_non_debugable<T: Clone + 'static>(value: T) -> (r: Self)
        ensures
            r.spec_length() == vstd::layout::size_of::<T>(),
            r.is_clonable(),
    {
        let length = std::mem::size_of::<T>();
        Self { data: BodyData::Clonable(erase_clonable(value)), length }
    }

    /// The length of the message body.
    pub fn length(&self) -> (r: usize)
        ensures
            r == self.spec_length(),
    {
        self.length
    }

    /// Whether the body holds a value of type `T`.
    pub fn is<T: 'static>(&self) -> (r: bool) {
        match &self.data {
            BodyData::Plain(e) => holds::<T>(e),
            BodyData::Clonable(c) => holds::<T>(clonable_value(c)),
        }
    }

    /// The value of the body, when it is of type `T`; otherwise the body
    /// itself comes back unchanged.
    pub fn try_cast<T: 'static>(self) -> (r: Result<T, Self>)
        ensures
            r matches Err(back) ==> back == self,
    {
        let Body { data, length } = self;
        match data {
            BodyData::Plain(e) => match take::<T>(e) {
                Ok(value) => Ok(value),
                Err(e) => Err(Body { data: BodyData::Plain(e), length }),
            },
            BodyData::Clonable(c) => match take_clonable::<T>(c) {
                Ok(value) => Ok(value),
                Err(c) => Err(Body { data: BodyData::Clonable(c), length }),
            },
        }
    }

    /// A reference to the value of the body, when it is of type `T`.
    pub fn try_content<T: 'static>(&self) -> (r: Option<&T>) {
        match &self.data {
            BodyData::Plain(e) => peek::<T>(e),
            BodyData::Clonable(c) => peek::<T>(clonable_value(c)),
        }
    }

    /// A mutable reference to the value of the body, when it is of type `T`.
    /// The length of the body does not change.
    pub fn try_content_mut<T: 'static>(&mut self) -> (r: Option<&mut T>)
        ensures
            final(self).spec_length() == old(self).spec_length(),
    {
        let Body { data, length: _ } = self;
        match data {
            BodyData::Plain(e) => peek_mut::<T>(e),
            BodyData::Clonable(c) => peek_mut_clonable::<T>(c),
        }
    }

    /// A clone of the body, with the same length, where its value can be
    /// cloned; `None` where it cannot.
    pub fn try_clone(&self) -> (r: Option<Self>)
        ensures
            r is Some <==> self.is_clonable(),
            r matches Some(b) ==> b.spec_length() == self.spec_length() && b.is_clonable(),
    {
        match &self.data {
            BodyData::Plain(_) => None,
            BodyData::Clonable(c) => Some(Body { data: BodyData::Clonable(clone_erased(c)), length: self.length }),
        }
    }
}

} // verus!
