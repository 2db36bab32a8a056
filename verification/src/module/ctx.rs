//! How a node behaves on startup, shutdown or panic.
use vstd::prelude::*;

verus! {

/// A stereotyp that defines a nodes behaviour on startup, shutdown or panic.
///
/// The lifecycle of a node is defined as follows:
/// 1. A node is created (potentially from non-sim context)
/// 2. A node is started (`at_sim_start`)
/// 3. A node runs.
/// 4. The software panics (shutdown and restart count as a panic too)
///  1. Node is either restarted or dropped
///  2. Children are droped if flag is set
///  3. Parent is informed
#[derive(Debug, Clone, Copy, PartialEq, Eq, Structural)]
pub struct Stereotyp {
    /// Whether a panic is caught, so that the simulation goes on.
    pub on_panic_catch: bool,
    /// Whether the node is dropped after a panic.
    pub on_panic_drop: bool,
    /// Whether the node is restarted after a panic.
    pub on_panic_restart: bool,
    /// Whether a panic drops the node's submodules.
    pub on_panic_drop_submodules: bool,
    /// Whether the parent is told of a panic.
    pub on_panic_inform_parent: bool,
}

impl Stereotyp {
    /// An independent host: panics are not caught, the node restarts and
    /// drops its submodules.
    pub open spec fn spec_host() -> Stereotyp {
        Stereotyp {
            on_panic_catch: false,
            on_panic_drop: false,
            on_panic_restart: true,
            on_panic_drop_submodules: true,
            on_panic_inform_parent: false,
        }
    }

    /// A subprocess: panics are caught, the node is dropped with its
    /// submodules and its parent is told.
    pub open spec fn spec_subprocess() -> Stereotyp {
        Stereotyp {
            on_panic_catch: true,
            on_panic_drop: true,
            on_panic_restart: false,
            on_panic_drop_submodules: true,
            on_panic_inform_parent: true,
        }
    }

    /// The stereotyp of an independent host.
    pub fn host() -> (r: Stereotyp)
        ensures
            r == Stereotyp::spec_host(),
    {
        Stereotyp {
            on_panic_catch: false,
            on_panic_drop: false,
            on_panic_restart: true,
            on_panic_drop_submodules: true,
            on_panic_inform_parent: false,
        }
    }

    /// The stereotyp of a subprocess.
    pub fn subprocess() -> (r: Stereotyp)
        ensures
            r == Stereotyp::spec_subprocess(),
    {
        Stereotyp {
            on_panic_catch: true,
            on_panic_drop: true,
            on_panic_restart: false,
            on_panic_drop_submodules: true,
            on_panic_inform_parent: true,
        }
    }
}

impl Default for Stereotyp {
    fn default() -> (r: Self)
        ensures
            r == Stereotyp::spec_host(),
    {
        Self::host()
    }
}

/// A config that defines a nodes behaviour on startup, shutdown or panic.
#[derive(Debug, Clone, Copy, PartialEq, Eq, Structural)]
pub struct UnwindBehaviour {
    /// Indicates whether to catch an panic and allow the simulation to continue without error
    /// or to record the module panic as an error in the runtime result.
    pub on_panic_catch: bool,
    /// Indicates whether a node should be restared if it panicked.
    pub on_panic_restart: bool,
    /// Indicates whether a panic in this module should shut down all submodules.
    pub on_panic_drop_submodules: bool,
}

impl UnwindBehaviour {
    /// The default behaviour of an independent node.
    ///
    /// Failures will be recorded & restarts attempted.
    /// Submodules will be dropped in upon panic.
    pub open spec fn spec_host() -> UnwindBehaviour {
        UnwindBehaviour { on_panic_catch: false, on_panic_restart: true, on_panic_drop_submodules: true }
    }

    /// The default behaviour of a subprocess node.
    ///
    /// Failures will not be recorded & restarts not attempted.
    /// Submodules will be dropped in upon panic.
    ///
    /// Handeling the failure is the resposiblity of the managing node
    /// (aka the 'parent' process).
    pub open spec fn spec_subprocess() -> UnwindBehaviour {
        UnwindBehaviour { on_panic_catch: true, on_panic_restart: false, on_panic_drop_submodules: true }
    }

    /// The behaviour of an independent node.
    pub fn host() -> (r: UnwindBehaviour)
        ensures
            r == UnwindBehaviour::spec_host(),
    {
        UnwindBehaviour { on_panic_catch: false, on_panic_restart: true, on_panic_drop_submodules: true }
    }

    /// The behaviour of a subprocess node.
    pub fn subprocess() -> (r: UnwindBehaviour)
        ensures
            r == UnwindBehaviour::spec_subprocess(),
    {
        UnwindBehaviour { on_panic_catch: true, on_panic_restart: false, on_panic_drop_submodules: true }
    }
}

impl Default for UnwindBehaviour {
    fn default() -> (r: Self)
        ensures
            r == UnwindBehaviour::spec_host(),
    {
        Self::host()
    }
}

} // verus!
