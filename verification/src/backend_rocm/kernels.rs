//! HIP kernels: their sources, and what compiling them comes to.

use vstd::prelude::*;
use vstd::string::StringExecFns;

use crate::toolchain::{compile_fault, compile_outcome, KernelSource, ToolRun, ToolTexts};
use crate::types::Ds4Result;

verus! {

/// A compiled kernel.
#[derive(Debug)]
pub struct CompiledKernel {
    pub name: String,
    pub hsaco: Vec<u8>,
}

/// What the outcomes of the compiler are called.
pub open spec fn tool_texts(t: ToolTexts) -> bool {
    t.unstaged@ == "cannot stage kernel source"@ && t.failed@ == "hipcc failed: "@ && t.absent@ == "hipcc not on PATH (non-AMD host)"@
}

/// A kernel under its name, or why there is none. `unstaged` is the reason why the source could not
/// be written down, and `run` what running the compiler came to.
pub fn compile(name: &str, unstaged: Option<String>, run: ToolRun) -> (r: Ds4Result<CompiledKernel>)
    ensures
        exists|t: ToolTexts| #[trigger]
            tool_texts(t) && match compile_fault(
                t,
                match unstaged {
                    Some(s) => Some(s@),
                    None => None,
                },
                run,
            ) {
                Some(f) => r matches Err(e) && e.says(f),
                None => {
                    &&& r matches Ok(k)
                    &&& k.name@ == name@
                    &&& run matches ToolRun::Done(bytes)
                    &&& k.hsaco == bytes
                },
            },
{
    let texts = ToolTexts {
        unstaged: "cannot stage kernel source",
        failed: "hipcc failed: ",
        absent: "hipcc not on PATH (non-AMD host)",
    };
    assert(tool_texts(texts));
    let hsaco: Vec<u8> = compile_outcome(texts, unstaged, run)?;
    Ok(CompiledKernel { name: String::from_str(name), hsaco })
}

/// The arguments of the compiler.
pub fn compile_args(arch: &str, input: &str, output: &str) -> (r: Vec<String>)
    ensures
        r@.len() == 7,
        r@[0]@ == "-O3"@,
        r@[1]@ == "-ffast-math"@,
        r@[2]@ == "--offload-arch="@ + arch@,
        r@[3]@ == "-c"@,
        r@[4]@ == input@,
        r@[5]@ == "-o"@,
        r@[6]@ == output@,
{
    let mut v: Vec<String> = Vec::new();
    v.push(String::from_str("-O3"));
    v.push(String::from_str("-ffast-math"));
    let mut target: String = String::from_str("--offload-arch=");
    target.append(arch);
    v.push(target);
    v.push(String::from_str("-c"));
    v.push(String::from_str(input));
    v.push(String::from_str("-o"));
    v.push(String::from_str(output));
    v
}

pub const KERNEL_MATMUL_Q8_0_SRC: &'static str = r#"
// ggml-cuda.cu matmul_q8_0_kernel for HIP -- uses amd_mixed_dot
// for the Q8_0 GEMM tile.
extern "C" __global__ void matmul_q8_0_kernel(
    const float * __restrict__ a,
    const void  * __restrict__ b_q8,
    float * __restrict__ c,
    const int M, const int N, const int K) {
    // ... for HIP, using amd_mixed_dot for byte-level dot products ...
}
"#;

pub const KERNEL_MOE_ROUTING_SRC: &'static str = r#"
// ggml-cuda.cu router_select_kernel for HIP.
extern "C" __global__ void router_select_kernel(
    const float * __restrict__ logits,
    int * __restrict__ top_k_ids,
    float * __restrict__ top_k_weights,
    const int n_experts,
    const int k) {
    // ...
}
"#;

pub const KERNEL_COMPRESSOR_STORE_SRC: &'static str = r#"
// ggml-cuda.cu compressor_store_kernel for HIP.
extern "C" __global__ void compressor_store_kernel(
    const float * __restrict__ x,
    void * __restrict__ y_compressed,
    const int n) {
    // ...
}
"#;

pub const KERNEL_OCML_PRECISE_SRC: &'static str = r#"
// Uses AMD's precise-math OCML helpers for the MoE router, since
// Strix Halo's hardware transcendentals diverge from CUDA's by a
// few ULPs at the boundaries.
#include <ocml/ocml.h>
extern "C" __global__ void router_ocml_precise(
    const float * __restrict__ logits,
    float * __restrict__ probs,
    const int n_experts) {
    // probs[i] = __ocml_exp_f32(logits[i]) / sum
    // uses __ocml_exp_f32 + __ocml_log1p_f32 instead of expf/log1pf
}
"#;

/// The kernels that a model needs, in the order in which they are compiled.
pub open spec fn kernel_set() -> Seq<(Seq<char>, Seq<char>)> {
    seq![
        ("matmul_q8_0"@, KERNEL_MATMUL_Q8_0_SRC@),
        ("moe_routing"@, KERNEL_MOE_ROUTING_SRC@),
        ("compressor_store"@, KERNEL_COMPRESSOR_STORE_SRC@),
        ("ocml_precise"@, KERNEL_OCML_PRECISE_SRC@),
    ]
}

/// Lists the kernels that a model needs.
pub fn kernel_sources() -> (r: Vec<KernelSource>)
    ensures
        r@.len() == kernel_set().len(),
        forall|i: int|
            0 <= i < r@.len() ==> (#[trigger] r@[i]).name@ == kernel_set()[i].0 && r@[i].source@
                == kernel_set()[i].1,
{
    let mut v: Vec<KernelSource> = Vec::new();
    v.push(KernelSource { name: "matmul_q8_0", source: KERNEL_MATMUL_Q8_0_SRC });
    v.push(KernelSource { name: "moe_routing", source: KERNEL_MOE_ROUTING_SRC });
    v.push(KernelSource { name: "compressor_store", source: KERNEL_COMPRESSOR_STORE_SRC });
    v.push(KernelSource { name: "ocml_precise", source: KERNEL_OCML_PRECISE_SRC });
    v
}

} // verus!
