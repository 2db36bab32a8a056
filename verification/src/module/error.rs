//! Errors of resolving a reference to another module.
use vstd::prelude::*;

verus! {

/// An error while resolving a reference to another module.
#[derive(Debug, Clone, PartialEq, Eq)]
pub enum ModuleReferencingError {
    /// No reference exists.
    NoEntry(String),
    /// The reference is not of the given type.
    TypeError(String),
    /// The load order dicates that the parent is not yet ready.
    NotYetInitalized(String),
    /// The reference module is currently inactive, so should not be accessed.
    CurrentlyInactive(String),
}

} // verus!
