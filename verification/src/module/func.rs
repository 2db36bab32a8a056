//! The parameters of a module, looked up in the simulation's parameter
//! store by the module's path.
use vstd::prelude::*;
use crate::common::par::{Parameters, Optional, ParHandle, collect_model};
use crate::common::path::ObjectPath;
use crate::keyed::StrKeyMap;

verus! {

/// The parameters of the module at `module`: every key set for it, with its
/// value, as the store's table for that path lists them.
pub fn pars(parameters: &Parameters, module: &ObjectPath) -> (r: StrKeyMap<String>)
    ensures
        r@.map_values(|v: String| v@) == collect_model(parameters.model(), module.text(), Map::empty()),
{
    parameters.get_def_table(module.path())
}

/// A handle to the parameter `key` of the module at `module` (not parsed),
/// which may also be used to write it.
pub fn par(parameters: &Parameters, module: &ObjectPath, key: &str) -> (r: ParHandle<Optional>)
    ensures
        r.path_text() == module.text(),
        r.key_text() == key@,
        r.value_text() is None,
{
    parameters.get_handle(module.path(), key)
}

} // verus!
