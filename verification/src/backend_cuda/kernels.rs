//! CUDA kernels: their sources, and what compiling them comes to.

use vstd::prelude::*;
use vstd::string::StringExecFns;

use crate::toolchain::{compile_fault, compile_outcome, KernelSource, ToolRun, ToolTexts};
use crate::types::Ds4Result;

verus! {

/// A compiled kernel.
#[derive(Debug)]
pub struct CompiledKernel {
    pub name: String,
    pub cubin: Vec<u8>,
}

/// What the outcomes of the compiler are called.
pub open spec fn tool_texts(t: ToolTexts) -> bool {
    t.unstaged@ == "nvcc not on PATH"@ && t.failed@ == "nvcc failed: "@ && t.absent@ == "nvcc not on PATH"@
}

/// A kernel under its name, or why there is none. `unstaged` is the reason why the source could not
/// be written down, and `run` what running the compiler came to.
pub fn compile(name: &str, unstaged: Option<String>, run: ToolRun) -> (r: Ds4Result<CompiledKernel>)
    ensures
        exists|t: ToolTexts| #[trigger]
            tool_texts(t) && match compile_fault(
                t,
                match unstaged {
                    Some(s) => Some(s@),
                    None => None,
                },
                run,
            ) {
                Some(f) => r matches Err(e) && e.says(f),
                None => {
                    &&& r matches Ok(k)
                    &&& k.name@ == name@
                    &&& run matches ToolRun::Done(bytes)
                    &&& k.cubin == bytes
                },
            },
{
    let texts = ToolTexts {
        unstaged: "nvcc not on PATH",
        failed: "nvcc failed: ",
        absent: "nvcc not on PATH",
    };
    assert(tool_texts(texts));
    let cubin: Vec<u8> = compile_outcome(texts, unstaged, run)?;
    Ok(CompiledKernel { name: String::from_str(name), cubin })
}

/// The arguments of the compiler.
pub fn compile_args(arch: &str, input: &str, output: &str) -> (r: Vec<String>)
    ensures
        r@.len() == 7,
        r@[0]@ == "-cubin"@,
        r@[1]@ == "-arch="@ + arch@,
        r@[2]@ == "-O3"@,
        r@[3]@ == "--use_fast_math"@,
        r@[4]@ == input@,
        r@[5]@ == "-o"@,
        r@[6]@ == output@,
{
    let mut v: Vec<String> = Vec::new();
    v.push(String::from_str("-cubin"));
    let mut target: String = String::from_str("-arch=");
    target.append(arch);
    v.push(target);
    v.push(String::from_str("-O3"));
    v.push(String::from_str("--use_fast_math"));
    v.push(String::from_str(input));
    v.push(String::from_str("-o"));
    v.push(String::from_str(output));
    v
}

pub const KERNEL_MATMUL_Q8_0_SRC: &'static str = r#"
// ggml-cuda matmul_q8_0_kernel -- Q8_0 GEMM tile.
// See third_party/ggml/src/ggml-cuda/ggml-cuda.cu:3627
extern "C" __global__ void matmul_q8_0_kernel(
    const float * __restrict__ a,
    const void  * __restrict__ b_q8,
    float * __restrict__ c,
    const int M, const int N, const int K) {
    // ... tile implementation ...
}
"#;

pub const KERNEL_ATTENTION_DECODE_MIXED_SRC: &'static str = r#"
// ggml-cuda attention_decode_mixed_kernel -- fused raw SWA + compressed KV.
// See third_party/ggml/src/ggml-cuda/ggml-cuda.cu:4630
extern "C" __global__ void attention_decode_mixed_kernel(
    const float * __restrict__ q,
    const void  * __restrict__ k_cache,
    const void  * __restrict__ v_cache,
    float * __restrict__ out,
    const int seq_len, const int n_heads, const int head_dim) {
    // ...
}
"#;

pub const KERNEL_HEAD_RMS_NORM_ROPE_TAIL_SRC: &'static str = r#"
// ggml-cuda head_rms_norm_rope_tail_kernel -- fused RoPE + head-wise RMSNorm + FP8 KV quantize.
// See third_party/ggml/src/ggml-cuda/ggml-cuda.cu:4032
extern "C" __global__ void head_rms_norm_rope_tail_kernel(
    float * __restrict__ x,
    const float * __restrict__ weight,
    const int head_dim,
    const int seq_len,
    const int pos) {
    // ...
}
"#;

pub const KERNEL_FP8_KV_QUANTIZE_SRC: &'static str = r#"
// ggml-cuda fp8_kv_quantize_kernel.
// See third_party/ggml/src/ggml-cuda/ggml-cuda.cu:4251
extern "C" __global__ void fp8_kv_quantize_kernel(
    const float * __restrict__ x,
    void * __restrict__ out_q,
    float * __restrict__ out_scale,
    const int n) {
    // ...
}
"#;

pub const KERNEL_ROUTER_SELECT_SRC: &'static str = r#"
// ggml-cuda router_select_kernel -- MoE top-k routing.
// See third_party/ggml/src/ggml-cuda/ggml-cuda.cu:5963
extern "C" __global__ void router_select_kernel(
    const float * __restrict__ logits,
    int * __restrict__ top_k_ids,
    float * __restrict__ top_k_weights,
    const int n_experts,
    const int k) {
    // ...
}
"#;

pub const KERNEL_COMPRESSOR_STORE_SRC: &'static str = r#"
// ggml-cuda compressor_store_kernel -- KV cache compressor.
// See third_party/ggml/src/ggml-cuda/ggml-cuda.cu:5784
extern "C" __global__ void compressor_store_kernel(
    const float * __restrict__ x,
    void * __restrict__ y_compressed,
    const int n) {
    // ...
}
"#;

pub const KERNEL_SAMPLING_ARGMAX_SRC: &'static str = r#"
// ggml-cuda argmax_kernel for sampling.
// See third_party/ggml/src/ggml-cuda/ggml-cuda.cu (single-pass argmax).
extern "C" __global__ void argmax_kernel(
    const float * __restrict__ logits,
    int * __restrict__ out,
    const int n) {
    // ...
}
"#;

/// The kernels that a model needs, in the order in which they are compiled.
pub open spec fn kernel_set() -> Seq<(Seq<char>, Seq<char>)> {
    seq![
        ("matmul_q8_0"@, KERNEL_MATMUL_Q8_0_SRC@),
        ("attention_decode_mixed"@, KERNEL_ATTENTION_DECODE_MIXED_SRC@),
        ("head_rms_norm_rope_tail"@, KERNEL_HEAD_RMS_NORM_ROPE_TAIL_SRC@),
        ("fp8_kv_quantize"@, KERNEL_FP8_KV_QUANTIZE_SRC@),
        ("router_select"@, KERNEL_ROUTER_SELECT_SRC@),
        ("compressor_store"@, KERNEL_COMPRESSOR_STORE_SRC@),
        ("sampling_argmax"@, KERNEL_SAMPLING_ARGMAX_SRC@),
    ]
}

/// Lists the kernels that a model needs.
pub fn kernel_sources() -> (r: Vec<KernelSource>)
    ensures
        r@.len() == kernel_set().len(),
        forall|i: int|
            0 <= i < r@.len() ==> (#[trigger] r@[i]).name@ == kernel_set()[i].0 && r@[i].source@
                == kernel_set()[i].1,
{
    let mut v: Vec<KernelSource> = Vec::new();
    v.push(KernelSource { name: "matmul_q8_0", source: KERNEL_MATMUL_Q8_0_SRC });
    v.push(KernelSource { name: "attention_decode_mixed", source: KERNEL_ATTENTION_DECODE_MIXED_SRC });
    v.push(KernelSource { name: "head_rms_norm_rope_tail", source: KERNEL_HEAD_RMS_NORM_ROPE_TAIL_SRC });
    v.push(KernelSource { name: "fp8_kv_quantize", source: KERNEL_FP8_KV_QUANTIZE_SRC });
    v.push(KernelSource { name: "router_select", source: KERNEL_ROUTER_SELECT_SRC });
    v.push(KernelSource { name: "compressor_store", source: KERNEL_COMPRESSOR_STORE_SRC });
    v.push(KernelSource { name: "sampling_argmax", source: KERNEL_SAMPLING_ARGMAX_SRC });
    v
}

} // verus!
