//! Object paths and parameter trees of the earlier network layer.
pub mod par;
pub mod path;
