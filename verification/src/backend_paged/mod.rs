//! Backend with a paged cache.

use vstd::prelude::*;

pub mod backend;
pub mod page_table;
pub mod paged_attention;

verus! {

pub const CRATE_NAME: &'static str = "ds4-backend-paged";

pub const VERSION: &'static str = "0.1.0";

} // verus!
