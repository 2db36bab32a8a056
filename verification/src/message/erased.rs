//! Values whose type is known only at run time.
//!
//! `Box<dyn Any>` is the one carrier of such values; the functions here are
//! thin calls into `std::any`, whose run-time type checks no contract can
//! describe: which type a value holds is not something a specification can
//! name, so these functions promise only what does not depend on it.
use vstd::prelude::*;
use std::any::Any;

verus! {

/// A value of a type that is known only at run time.
#[verifier::external_body]
#[derive(Debug)]
pub struct Erased {
    inner: Box<dyn Any>,
}

/// Boxes `value`, forgetting its type (`Box::new`, then the coercion to
/// `Box<dyn Any>`).
#[verifier::external_body]
pub(crate) fn erase<T: 'static>(value: T) -> (r: Erased) {
    Erased { inner: Box::new(value) }
}

/// Whether `e` holds a value of type `T` (`<dyn Any>::is`).
#[verifier::external_body]
pub(crate) fn holds<T: 'static>(e: &Erased) -> (r: bool) {
    e.inner.is::<T>()
}

/// The value of `e`, when it is of type `T` (`Box::<dyn Any>::downcast`);
/// otherwise `e` itself comes back, unchanged.
#[verifier::external_body]
pub(crate) fn take<T: 'static>(e: Erased) -> (r: Result<T, Erased>)
    ensures
        r matches Err(back) ==> back == e,
{
    match e.inner.downcast::<T>() {
        Ok(value) => Ok(*value),
        Err(inner) => Err(Erased { inner }),
    }
}

/// A reference to the value of `e`, when it is of type `T`
/// (`<dyn Any>::downcast_ref`).
#[verifier::external_body]
pub(crate) fn peek<T: 'static>(e: &Erased) -> (r: Option<&T>) {
    e.inner.downcast_ref::<T>()
}

/// A mutable reference to the value of `e`, when it is of type `T`
/// (`<dyn Any>::downcast_mut`). The value may change through it; the box
/// stays where it is.
#[verifier::external_body]
pub(crate) fn peek_mut<T: 'static>(e: &mut Erased) -> (r: Option<&mut T>) {
    e.inner.downcast_mut::<T>()
}

/// A value of a type that is known only at run time, together with the
/// type's `Clone`, captured when the value was boxed.
#[verifier::external_body]
#[derive(Debug)]
pub struct ClonableErased {
    value: Erased,
    dup: fn(&Erased) -> Erased,
}

/// A box with a clone (`T::clone`) of the value of `e`, which is of type
/// `T`: only `erase_clonable` hands it out, beside a value of that type.
#[verifier::external_body]
fn dup_value<T: Clone + 'static>(e: &Erased) -> (r: Erased) {
    Erased { inner: Box::new(e.inner.downcast_ref::<T>().expect("boxed with its own type").clone()) }
}

/// Boxes `value`, forgetting its type but keeping `T::clone` beside it.
#[verifier::external_body]
pub(crate) fn erase_clonable<T: Clone + 'static>(value: T) -> (r: ClonableErased) {
    ClonableErased { value: Erased { inner: Box::new(value) }, dup: dup_value::<T> }
}

/// A new box with a clone (`T::clone`, for the `T` the value was boxed
/// with) of the value of `c`.
#[verifier::external_body]
pub(crate) fn clone_erased(c: &ClonableErased) -> (r: ClonableErased) {
    ClonableErased { value: (c.dup)(&c.value), dup: c.dup }
}

/// The boxed value of `c`.
#[verifier::external_body]
pub(crate) fn clonable_value(c: &ClonableErased) -> (r: &Erased) {
    &c.value
}

/// The boxed value of `c`, to be changed in place; its `Clone` stays.
/// Private: the box handed out must keep a value of the type the `Clone`
/// was captured for, so outside this file only the value itself is handed
/// out, by `peek_mut_clonable`.
#[verifier::external_body]
fn clonable_value_mut(c: &mut ClonableErased) -> (r: &mut Erased) {
    &mut c.value
}

/// A mutable reference to the value of `c`, when it is of type `T`; the box
/// and its `Clone` stay as they are.
pub(crate) fn peek_mut_clonable<T: 'static>(c: &mut ClonableErased) -> (r: Option<&mut T>) {
    peek_mut::<T>(clonable_value_mut(c))
}

/// The value of `c`, when it is of type `T` (`Box::<dyn Any>::downcast`);
/// otherwise `c` itself comes back, unchanged.
#[verifier::external_body]
pub(crate) fn take_clonable<T: 'static>(c: ClonableErased) -> (r: Result<T, ClonableErased>)
    ensures
        r matches Err(back) ==> back == c,
{
    match c.value.inner.downcast::<T>() {
        Ok(value) => Ok(*value),
        Err(inner) => Err(ClonableErased { value: Erased { inner }, dup: c.dup }),
    }
}

} // verus!
