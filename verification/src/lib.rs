//! Verified core of the Bazel runfiles mode for virtual environments.
use vstd::prelude::*;

pub mod command_line;
pub mod path_ops;
pub mod populate;
pub mod postprocess;
pub mod pyvenv_cfg;
pub mod manifest;
pub mod shim;
pub mod target;
pub mod text;

verus! {

} // verus!
