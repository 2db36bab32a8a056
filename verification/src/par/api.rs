//! Handles to parameters of a given node.
use vstd::prelude::*;
use super::{Par, ParMap, par_key, export_set, exported, line_texts};
use crate::path::ObjectPath;

verus! {

/// Returns a handle to the parameter `key` of the node at `module`, the
/// node that asks (not parsed).
pub fn par(key: &str, module: &ObjectPath) -> (r: Par)
    ensures
        r.key_text() == par_key(key@, module.text()),
        r.value_text() is None,
{
    Par::new(key, module.as_str())
}

/// Returns a handle to the parameter `key` of the node at path `module`
/// (not parsed).
pub fn par_for(key: &str, module: &str) -> (r: Par)
    ensures
        r.key_text() == par_key(key@, module@),
        r.value_text() is None,
{
    Par::new(key, module)
}

/// Exports the simulation parameter tree as a key-value list, one entry a
/// line: its full key, a colon and its value; each entry once, in the
/// order of the tree.
pub fn par_export(map: &ParMap) -> (r: Vec<String>)
    ensures
        line_texts(r@).to_set() == export_set(map.model(), Seq::empty()),
        exported(map.model(), Seq::empty(), line_texts(r@)),
{
    map.export()
}

} // verus!
