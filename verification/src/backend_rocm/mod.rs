//! ROCm backend.

use vstd::prelude::*;

pub mod backend;
pub mod kernels;

verus! {

pub const CRATE_NAME: &'static str = "ds4-backend-rocm";

pub const VERSION: &'static str = "0.1.0";

} // verus!
