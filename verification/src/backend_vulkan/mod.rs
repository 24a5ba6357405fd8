//! Vulkan backend: device discovery and memory. It runs no model, for there are no SPIR-V kernels.

use vstd::prelude::*;

pub mod backend;
pub mod runtime;

verus! {

pub const CRATE_NAME: &'static str = "ds4-backend-vulkan";

pub const VERSION: &'static str = "0.1.0";

} // verus!
