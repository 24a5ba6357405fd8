//! DwarfStar inference core.

#![allow(non_camel_case_types)]

use vstd::prelude::*;

pub mod backend_arc;
pub mod backend_cpu;
pub mod backend_cuda;
pub mod backend_metal;
pub mod backend_paged;
pub mod backend_rocm;
pub mod backend_vulkan;
pub mod chat;
pub mod cli;
pub mod dist;
pub mod engine;
pub mod float_bits;
pub mod gguf;
pub mod graph;
pub mod half;
pub mod kv;
pub mod le;
pub mod mtp;
pub mod parse;
pub mod sampler;
pub mod search;
pub mod session;
pub mod slices;
pub mod table;
pub mod tensor;
pub mod text;
pub mod tokenizer;
pub mod tokenizer_data;
pub mod toolchain;
pub mod types;
pub mod vocab;

verus! {

pub const CRATE_NAME: &'static str = "ds4-core";

pub const VERSION: &'static str = "0.1.0";

} // verus!
