//! Intel Arc backend.

use vstd::prelude::*;

pub mod backend;
pub mod kernels;
pub mod moe;
pub mod packed;
pub mod runtime;
pub mod sequence;
