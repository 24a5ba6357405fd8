//! CPU backend: the reference that the other backends are held to.

use vstd::prelude::*;

pub mod attention;
pub mod backend;
pub mod decode;
pub mod matmul;
pub mod rmsnorm;
pub mod rope;
pub mod softmax;

verus! {

pub const CRATE_NAME: &'static str = "ds4-backend-cpu";

pub const VERSION: &'static str = "0.1.0";

} // verus!
