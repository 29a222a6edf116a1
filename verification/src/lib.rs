//! Verified core of the Pica package manager for OpenWrt.
use vstd::prelude::*;

pub mod text;
pub mod pica_pkg_core;
pub mod pica_core;
pub mod json;
pub mod strset;
pub mod pica_pkg_cli;
pub mod pica_cli;
pub mod pica_pack;

verus! {

} // verus!
