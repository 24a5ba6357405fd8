//! Metal kernels: their sources, and what compiling them comes to.

use vstd::prelude::*;
use vstd::string::StringExecFns;

use crate::toolchain::{compile_fault, compile_outcome, KernelSource, ToolRun, ToolTexts};
use crate::types::Ds4Result;

verus! {

/// A compiled kernel.
#[derive(Debug)]
pub struct CompiledKernel {
    pub name: String,
    pub metallib: Vec<u8>,
}

/// What the outcomes of the compiler are called.
pub open spec fn tool_texts(t: ToolTexts) -> bool {
    t.unstaged@ == "cannot stage kernel source"@ && t.failed@ == "xcrun metal failed: "@ && t.absent@ == "xcrun not on PATH (non-macOS host)"@
}

/// A kernel under its name, or why there is none. `unstaged` is the reason why the source could not
/// be written down, and `run` what running the compiler came to.
pub fn compile(name: &str, unstaged: Option<String>, run: ToolRun) -> (r: Ds4Result<CompiledKernel>)
    ensures
        exists|t: ToolTexts| #[trigger]
            tool_texts(t) && match compile_fault(
                t,
                match unstaged {
                    Some(s) => Some(s@),
                    None => None,
                },
                run,
            ) {
                Some(f) => r matches Err(e) && e.says(f),
                None => {
                    &&& r matches Ok(k)
                    &&& k.name@ == name@
                    &&& run matches ToolRun::Done(bytes)
                    &&& k.metallib == bytes
                },
            },
{
    let texts = ToolTexts {
        unstaged: "cannot stage kernel source",
        failed: "xcrun metal failed: ",
        absent: "xcrun not on PATH (non-macOS host)",
    };
    assert(tool_texts(texts));
    let metallib: Vec<u8> = compile_outcome(texts, unstaged, run)?;
    Ok(CompiledKernel { name: String::from_str(name), metallib })
}

/// The arguments of the compiler.
pub fn compile_args(input: &str, output: &str) -> (r: Vec<String>)
    ensures
        r@.len() == 6,
        r@[0]@ == "metal"@,
        r@[1]@ == "-O3"@,
        r@[2]@ == "-c"@,
        r@[3]@ == input@,
        r@[4]@ == "-o"@,
        r@[5]@ == output@,
{
    let mut v: Vec<String> = Vec::new();
    v.push(String::from_str("metal"));
    v.push(String::from_str("-O3"));
    v.push(String::from_str("-c"));
    v.push(String::from_str(input));
    v.push(String::from_str("-o"));
    v.push(String::from_str(output));
    v
}

pub const KERNEL_MATMUL_F32_SRC: &'static str = r#"
#include <metal_stdlib>
using namespace metal;
// ggml-metal dense.metal: kernel_mul_mm_id_map0_ne20.
kernel void ds4_matmul_f32(
    device const float * a [[buffer(0)]],
    device const float * b [[buffer(1)]],
    device float *       c [[buffer(2)]],
    constant uint & M [[buffer(3)]],
    constant uint & N [[buffer(4)]],
    constant uint & K [[buffer(5)]],
    uint2 gid [[thread_position_in_grid]]) {
    // tile GEMM (see third_party/ggml/src/ggml-metal/dense.metal)
}
"#;

pub const KERNEL_FLASH_ATTN_SRC: &'static str = r#"
#include <metal_stdlib>
using namespace metal;
// ggml-metal flash_attn.metal: kernel_flash_attn_ext_pad.
kernel void ds4_flash_attn(
    device const float * q [[buffer(0)]],
    device const float * k [[buffer(1)]],
    device const float * v [[buffer(2)]],
    device float *       out [[buffer(3)]],
    constant uint & seq_len [[buffer(4)]],
    constant uint & n_heads [[buffer(5)]],
    constant uint & head_dim [[buffer(6)]],
    uint3 gid [[thread_position_in_grid]]) {
    // ...
}
"#;

pub const KERNEL_ROPE_SRC: &'static str = r#"
#include <metal_stdlib>
using namespace metal;
// ggml-metal dsv4_rope.metal: rope application.
kernel void ds4_rope(
    device float *       x [[buffer(0)]],
    constant uint &       pos [[buffer(1)]],
    constant uint &       n_heads [[buffer(2)]],
    constant uint &       head_dim [[buffer(3)]],
    constant float &      freq_base [[buffer(4)]],
    uint2 gid [[thread_position_in_grid]]) {
    // ...
}
"#;

pub const KERNEL_RMSNORM_SRC: &'static str = r#"
#include <metal_stdlib>
using namespace metal;
// ggml-metal norm.metal: rms_norm.
kernel void ds4_rms_norm(
    device float *       x [[buffer(0)]],
    device const float * weight [[buffer(1)]],
    constant float &     eps [[buffer(2)]],
    uint gid [[thread_position_in_grid]]) {
    // ...
}
"#;

pub const KERNEL_MOE_SRC: &'static str = r#"
#include <metal_stdlib>
using namespace metal;
// ggml-metal moe.metal: IQ2_XXS / Q4_K expert kernel with Q8_K
// activation quantized inline.
kernel void ds4_moe_expert(
    device const void * x_q8 [[buffer(0)]],
    device const void * w_iq2 [[buffer(1)]],
    device float *       out [[buffer(2)]],
    constant uint &       n [[buffer(3)]],
    uint gid [[thread_position_in_grid]]) {
    // ...
}
"#;

/// The kernels that a model needs, in the order in which they are compiled.
pub open spec fn kernel_set() -> Seq<(Seq<char>, Seq<char>)> {
    seq![
        ("matmul_f32"@, KERNEL_MATMUL_F32_SRC@),
        ("flash_attn"@, KERNEL_FLASH_ATTN_SRC@),
        ("rope"@, KERNEL_ROPE_SRC@),
        ("rmsnorm"@, KERNEL_RMSNORM_SRC@),
        ("moe"@, KERNEL_MOE_SRC@),
    ]
}

/// Lists the kernels that a model needs.
pub fn kernel_sources() -> (r: Vec<KernelSource>)
    ensures
        r@.len() == kernel_set().len(),
        forall|i: int|
            0 <= i < r@.len() ==> (#[trigger] r@[i]).name@ == kernel_set()[i].0 && r@[i].source@
                == kernel_set()[i].1,
{
    let mut v: Vec<KernelSource> = Vec::new();
    v.push(KernelSource { name: "matmul_f32", source: KERNEL_MATMUL_F32_SRC });
    v.push(KernelSource { name: "flash_attn", source: KERNEL_FLASH_ATTN_SRC });
    v.push(KernelSource { name: "rope", source: KERNEL_ROPE_SRC });
    v.push(KernelSource { name: "rmsnorm", source: KERNEL_RMSNORM_SRC });
    v.push(KernelSource { name: "moe", source: KERNEL_MOE_SRC });
    v
}

} // verus!
