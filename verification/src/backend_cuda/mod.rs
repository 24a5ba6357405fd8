//! CUDA backend.

use vstd::prelude::*;

pub mod backend;
pub mod buffers;
pub mod kernels;
pub mod launch;
pub mod runtime;
pub mod runtime_body;

verus! {

pub const CRATE_NAME: &'static str = "ds4-backend-cuda";

pub const VERSION: &'static str = "0.1.0";

} // verus!
