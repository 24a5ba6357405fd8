//! CUDA model: which kernels an evaluation launches, on which sizes, and what is refused before.
//!
//! Device memory and launches are the caller's.

use vstd::prelude::*;
use vstd::string::{StrSliceExecFns, StringExecFns};

use super::buffers::{
    elem_bytes, first_suiting, fresh_buffer, swapped_out, Buffer, BufferPool, BufferView, DType,
};
use super::kernels::{kernel_set, kernel_sources};
use crate::backend_cpu::backend::{
    check_slice_buffers, head_calls, lemma_first_fault_eq, list_head_calls, run_countable,
    slice_buffers_fault, HeadCall, HeadPlan,
};
use crate::engine::ModelDims;
use crate::gguf::{
    descriptor_of, dtype_name, find_descriptor, no_metadata, GgufDType, GgufMetadata,
    TensorDescriptor,
};
use crate::graph::{
    attention_kernels, attention_ops, bad_shape, bad_shape_error, dense_kernels, dense_ops,
    dims_countable, dims_fault, dims_from, first_fault, infer_dims, layer_calls, missing_tensor,
    missing_tensor_error, slice_calls, slice_names, weight_name, FfnTensorNames, LayerCall, LayerOp, LayerPos,
    LayerTensorNames,
};
use crate::text::{dec, push_dec, trim, trimmed};
use crate::toolchain::{first_missing, KernelCache, KernelSource};
use crate::types::{fault, Ds4Error, Ds4ErrorKind, Ds4QuantKind, Ds4Result, Fault};

verus! {

/// The number under which the kernels know a storage format.
pub open spec fn format_code(d: GgufDType) -> Option<i32> {
    match d {
        GgufDType::F32 => Some(0),
        GgufDType::F16 => Some(1),
        GgufDType::Q8_0 => Some(2),
        GgufDType::Q4_K => Some(3),
        GgufDType::Q3_K => Some(4),
        GgufDType::Q2_K => Some(5),
        GgufDType::Iq2Xxs => Some(6),
        GgufDType::Other => None,
    }
}

/// The number under which the kernels know a storage format.
pub fn dtype_code(d: GgufDType) -> (r: Option<i32>)
    ensures
        r == format_code(d),
{
    match d {
        GgufDType::F32 => Some(0),
        GgufDType::F16 => Some(1),
        GgufDType::Q8_0 => Some(2),
        GgufDType::Q4_K => Some(3),
        GgufDType::Q3_K => Some(4),
        GgufDType::Q2_K => Some(5),
        GgufDType::Iq2Xxs => Some(6),
        GgufDType::Other => None,
    }
}

/// Number of thread blocks of 256 that cover `n` items: at least one.
pub open spec fn blocks_of(n: int) -> int {
    if n <= 0 {
        1
    } else {
        (n + 255) / 256
    }
}

/// Number of thread blocks of 256 that cover `n` items: at least one.
pub fn blocks_for(n: usize) -> (r: u32)
    requires
        blocks_of(n as int) <= u32::MAX,
    ensures
        r == blocks_of(n as int),
{
    let whole: usize = n / 256;
    let blocks: usize = if n % 256 == 0 {
        whole
    } else {
        whole + 1
    };
    if blocks > 0 {
        blocks as u32
    } else {
        1
    }
}

/// The blocks of a launch have a thread for each item, and none of them is without an item.
pub proof fn law_blocks_cover(n: nat)
    ensures
        blocks_of(n as int) * 256 >= n,
        n > 0 ==> (blocks_of(n as int) - 1) * 256 < n,
{
}

/// Blocks and threads of a launch.
#[derive(Debug, Clone, Copy, PartialEq, Eq, Structural)]
pub struct LaunchGrid {
    pub blocks: u32,
    pub threads: u32,
}

/// Number of items of a kernel that runs over many.
pub open spec fn op_items(op: LayerOp) -> int {
    match op {
        LayerOp::RmsNorm { from, weight, to, n } => 1,
        LayerOp::Matvec { from, weight, to, in_dim, out_dim } => out_dim as int,
        LayerOp::Rope { buf, pos, n_heads, head_dim } => n_heads * (head_dim / 2),
        LayerOp::StoreK { start, n } => n as int,
        LayerOp::StoreV { start, n } => n as int,
        LayerOp::Attention { prefix_len, prefix_values, n_heads, head_dim } => n_heads as int,
        LayerOp::Add { to, from, n } => n as int,
        LayerOp::SiluProduct { gate, up, n } => n as int,
    }
}

/// The grid of a kernel: one thread for a norm, otherwise blocks of 256 threads.
pub fn launch_grid(op: LayerOp) -> (g: LaunchGrid)
    requires
        blocks_of(op_items(op)) <= u32::MAX,
        op_items(op) <= usize::MAX,
    ensures
        g == if op is RmsNorm {
            LaunchGrid { blocks: 1, threads: 1 }
        } else {
            LaunchGrid { blocks: blocks_of(op_items(op)) as u32, threads: 256 }
        },
{
    match op {
        LayerOp::RmsNorm { from, weight, to, n } => LaunchGrid { blocks: 1, threads: 1 },
        LayerOp::Matvec { from, weight, to, in_dim, out_dim } => LaunchGrid {
            blocks: blocks_for(out_dim),
            threads: 256,
        },
        LayerOp::Rope { buf, pos, n_heads, head_dim } => LaunchGrid {
            blocks: blocks_for(n_heads * (head_dim / 2)),
            threads: 256,
        },
        LayerOp::StoreK { start, n } => LaunchGrid { blocks: blocks_for(n), threads: 256 },
        LayerOp::StoreV { start, n } => LaunchGrid { blocks: blocks_for(n), threads: 256 },
        LayerOp::Attention { prefix_len, prefix_values, n_heads, head_dim } => LaunchGrid {
            blocks: blocks_for(n_heads),
            threads: 256,
        },
        LayerOp::Add { to, from, n } => LaunchGrid { blocks: blocks_for(n), threads: 256 },
        LayerOp::SiluProduct { gate, up, n } => LaunchGrid { blocks: blocks_for(n), threads: 256 },
    }
}

// ---- The backend ----

/// Handle of the CUDA backend.
#[derive(Debug, Clone, Copy, PartialEq, Eq, Structural)]
pub struct CudaBackend {}

/// The position of the first dot, from `from` on.
pub open spec fn first_dot(s: Seq<char>, from: int) -> Option<int>
    decreases s.len() - from,
{
    if from < 0 || from >= s.len() {
        None
    } else if s[from] == '.' {
        Some(from)
    } else {
        first_dot(s, from + 1)
    }
}

/// The text up to the first line break from `from` on.
pub open spec fn first_line(s: Seq<char>, from: int) -> Seq<char>
    decreases s.len() - from,
{
    if from < 0 || from >= s.len() {
        s
    } else if s[from] == '\n' {
        s.take(from)
    } else {
        first_line(s, from + 1)
    }
}

/// The architecture for a compute capability of the form `major.minor`.
pub open spec fn arch_text(capability: Seq<char>) -> Option<Seq<char>> {
    match first_dot(capability, 0) {
        Some(k) => Some(
            "sm_"@ + capability.take(k) + capability.skip(k + 1),
        ),
        None => None,
    }
}

impl CudaBackend {
    /// A handle.
    pub fn new() -> (b: Self) {
        CudaBackend {  }
    }

    /// The name of the backend.
    pub fn name(&self) -> (r: &'static str)
        ensures
            r@ == "cuda"@,
    {
        "cuda"
    }

    /// How the weights count as quantised.
    pub fn quant_kind(&self) -> (k: Ds4QuantKind)
        ensures
            k == Ds4QuantKind::Q8_0,
    {
        Ds4QuantKind::Q8_0
    }

    /// The memory that a context takes on the device; nothing is counted.
    pub fn memory_estimate(ctx_size: usize, prefill_chunk: usize) -> (n: u64)
        ensures
            n == 0,
    {
        0
    }

    /// The architecture that a report of compute capabilities shows: its first line is one of the
    /// form `major.minor`, white space aside.
    pub fn detect_arch(report: &str) -> (r: Option<String>)
        ensures
            match arch_text(trimmed(first_line(report@, 0))) {
                Some(t) => r matches Some(s) && s@ == t,
                None => r is None,
            },
    {
        let n: usize = report.unicode_len();
        let mut i: usize = 0;
        while i < n && report.get_char(i) != '\n'
            invariant
                n == report@.len(),
                i <= n,
                first_line(report@, 0) == first_line(report@, i as int),
            decreases n - i,
        {
            i += 1;
        }
        assert(first_line(report@, 0) =~= report@.subrange(0, i as int));
        Self::arch_of(trim(report.substring_char(0, i)))
    }

    fn arch_of(capability: &str) -> (r: Option<String>)
        ensures
            match arch_text(capability@) {
                Some(t) => r matches Some(s) && s@ == t,
                None => r is None,
            },
    {
        let n: usize = capability.unicode_len();
        let mut i: usize = 0;
        while i < n
            invariant
                n == capability@.len(),
                i <= n,
                first_dot(capability@, 0) == first_dot(capability@, i as int),
            decreases n - i,
        {
            if capability.get_char(i) == '.' {
                let major: &str = capability.substring_char(0, i);
                let minor: &str = capability.substring_char(i + 1, n);
                let mut s: String = String::from_str("sm_");
                s.append(major);
                s.append(minor);
                return Some(s);
            }
            i += 1;
        }
        None
    }
}

impl Default for CudaBackend {
    fn default() -> (b: Self) {
        CudaBackend::new()
    }
}

// ---- The model ----

/// A model: its tensors in the order of the file, its buffers and its kernels.
#[derive(Debug)]
pub struct CudaModel {
    pub pool: BufferPool,
    pub cache: KernelCache,
    pub arch: String,
    pub descriptors: Vec<TensorDescriptor>,
    pub metadata: GgufMetadata,
    /// The dimensions, where the model file states them.
    pub stated_dims: Option<ModelDims>,
    /// The model was loaded onto a device.
    pub has_runtime: bool,
}

/// The fault of a model that is on no device.
pub open spec fn no_runtime() -> Option<Fault> {
    fault(
        Ds4ErrorKind::NotImplemented,
        "CUDA model was not loaded with a device runtime"@,
    )
}

/// The fault of a tensor in a format that the kernels do not know.
pub open spec fn unsupported(name: Seq<char>, d: GgufDType) -> Option<Fault> {
    fault(
        Ds4ErrorKind::NotImplemented,
        "tensor "@ + name + " dtype "@ + dtype_name(d)
            + " is not supported by the CUDA runtime path"@,
    )
}

impl CudaModel {
    /// What stands against the dimensions.
    pub open spec fn model_fault(self) -> Option<Fault> {
        if self.stated_dims is Some {
            None
        } else {
            dims_fault(self.descriptors@, self.metadata, false)
        }
    }

    /// The dimensions.
    pub open spec fn model_dims(self) -> ModelDims {
        match self.stated_dims {
            Some(d) => d,
            None => dims_from(
                self.descriptors@,
                self.metadata,
                descriptor_of(self.descriptors@, "token_embd.weight"@).unwrap().dims@,
            ),
        }
    }

    /// The dimensions can be worked out on this machine.
    pub open spec fn countable(self) -> bool {
        self.stated_dims is None ==> dims_countable(self.descriptors@)
    }

    /// What stands against reading a tensor.
    pub open spec fn weight_fault(self, name: Seq<char>) -> Option<Fault> {
        match descriptor_of(self.descriptors@, name) {
            None => missing_tensor(name),
            Some(d) => if format_code(d.dtype) is None {
                unsupported(name, d.dtype)
            } else {
                None
            },
        }
    }

    /// What stands against multiplying a vector with a tensor.
    pub open spec fn matvec_fault(self, name: Seq<char>, input: usize, out: usize) -> Option<Fault> {
        match descriptor_of(self.descriptors@, name) {
            None => missing_tensor(name),
            Some(d) => if d.dims@.len() != 2 {
                bad_shape(name, d.dims@)
            } else if input != d.dims@[0] || out != d.dims@[1] {
                fault(
                    Ds4ErrorKind::Model,
                    name + " matvec shape mismatch: input="@ + dec(input as nat) + " expected="@
                        + dec(d.dims@[0] as nat) + ", out="@ + dec(out as nat) + " expected="@ + dec(
                        d.dims@[1] as nat,
                    ),
                )
            } else if format_code(d.dtype) is None {
                unsupported(name, d.dtype)
            } else {
                None
            },
        }
    }

    /// What stands against a kernel of a layer.
    pub open spec fn op_fault(self, names: LayerTensorNames, op: LayerOp) -> Option<Fault> {
        match op {
            LayerOp::RmsNorm { from, weight, to, n } => self.weight_fault(
                weight_name(names, weight),
            ),
            LayerOp::Matvec { from, weight, to, in_dim, out_dim } => self.matvec_fault(
                weight_name(names, weight),
                in_dim,
                out_dim,
            ),
            _ => None,
        }
    }

    /// What stands against running a layer.
    pub open spec fn layer_fault(self, names: LayerTensorNames, dims: ModelDims, at: LayerPos) -> Option<
        Fault,
    > {
        let check = |op: LayerOp| self.op_fault(names, op);
        if first_fault(attention_ops(dims, at), check, 0) is Some {
            first_fault(attention_ops(dims, at), check, 0)
        } else if names.ffn is RoutedMoe {
            fault(
                Ds4ErrorKind::NotImplemented,
                "CUDA routed-MoE FFN execution requires expert dispatch kernels"@,
            )
        } else {
            first_fault(dense_ops(dims), check, 0)
        }
    }

    /// The first fault of layers, from `from` on.
    pub open spec fn layers_fault(
        self,
        names: Seq<LayerTensorNames>,
        dims: ModelDims,
        at: LayerPos,
        from: int,
    ) -> Option<Fault>
        decreases names.len() - from,
    {
        if from < 0 || from >= names.len() {
            None
        } else if self.layer_fault(names[from], dims, at) is Some {
            self.layer_fault(names[from], dims, at)
        } else {
            self.layers_fault(names, dims, at, from + 1)
        }
    }

    /// What stands against the embedding of a token.
    pub open spec fn embedding_fault(self, token: u32, dims: ModelDims) -> Option<Fault> {
        match descriptor_of(self.descriptors@, "token_embd.weight"@) {
            None => missing_tensor("token_embd.weight"@),
            Some(d) => if token >= dims.vocab {
                fault(
                    Ds4ErrorKind::InvalidArgument,
                    "token id "@ + dec(token as nat) + " is outside vocabulary size "@ + dec(
                        dims.vocab as nat,
                    ),
                )
            } else if format_code(d.dtype) is None {
                unsupported("token_embd.weight"@, d.dtype)
            } else {
                None
            },
        }
    }

    /// What stands against the range and the buffers of a layer slice.
    pub open spec fn slice_fault(
        self,
        token_ids: nat,
        layer_start: usize,
        layer_end: usize,
        input: usize,
        output: usize,
    ) -> Option<Fault> {
        if self.model_fault() is Some {
            self.model_fault()
        } else {
            let dims = self.model_dims();
            if layer_end < layer_start || layer_end > dims.layers {
                fault(
                    Ds4ErrorKind::InvalidArgument,
                    "invalid layer slice "@ + dec(layer_start as nat) + ".."@ + dec(
                        layer_end as nat,
                    ),
                )
            } else {
                slice_buffers_fault(token_ids, dims.hidden, input, output)
            }
        }
    }

    /// What stands against the output head.
    pub open spec fn head_fault(self, n_tokens: usize, logits_len: usize) -> Option<Fault> {
        if n_tokens == 0 {
            None
        } else if !self.has_runtime {
            no_runtime()
        } else if self.model_fault() is Some {
            self.model_fault()
        } else {
            let dims = self.model_dims();
            if logits_len < n_tokens * dims.vocab {
                fault(
                    Ds4ErrorKind::InvalidArgument,
                    "logit buffer too small: "@ + dec(logits_len as nat) + " < "@ + dec(
                        (n_tokens * dims.vocab) as nat,
                    ),
                )
            } else if descriptor_of(self.descriptors@, "output_norm.weight"@) is Some
                && self.weight_fault("output_norm.weight"@) is Some {
                self.weight_fault("output_norm.weight"@)
            } else {
                self.matvec_fault("output.weight"@, dims.hidden, dims.vocab)
            }
        }
    }

    /// The first fault of the embeddings of tokens from `from` on.
    pub open spec fn tokens_fault(self, tokens: Seq<u32>, dims: ModelDims, from: int) -> Option<Fault>
        decreases tokens.len() - from,
    {
        if from < 0 || from >= tokens.len() {
            None
        } else if self.embedding_fault(tokens[from], dims) is Some {
            self.embedding_fault(tokens[from], dims)
        } else {
            self.tokens_fault(tokens, dims, from + 1)
        }
    }

    /// What stands against evaluating a sequence: of the first token all that can go wrong, of
    /// each later one only its embedding.
    pub open spec fn sequence_fault(
        self,
        names: Seq<LayerTensorNames>,
        tokens: Seq<u32>,
        out_len: usize,
    ) -> Option<Fault> {
        if tokens.len() == 0 {
            fault(Ds4ErrorKind::InvalidArgument, "token sequence is empty"@)
        } else if self.model_fault() is Some {
            self.model_fault()
        } else {
            let dims = self.model_dims();
            let at = LayerPos { rope_pos: 0, cache_pos: 0, prefix_len: 1 };
            if out_len < dims.vocab {
                fault(
                    Ds4ErrorKind::InvalidArgument,
                    "logit buffer too small: "@ + dec(out_len as nat) + " < "@ + dec(
                        dims.vocab as nat,
                    ),
                )
            } else if !self.has_runtime {
                no_runtime()
            } else if self.embedding_fault(tokens[0], dims) is Some {
                self.embedding_fault(tokens[0], dims)
            } else if self.layers_fault(names, dims, at, 0) is Some {
                self.layers_fault(names, dims, at, 0)
            } else if self.matvec_fault("output.weight"@, dims.hidden, dims.vocab) is Some {
                self.matvec_fault("output.weight"@, dims.hidden, dims.vocab)
            } else {
                self.tokens_fault(tokens, dims, 1)
            }
        }
    }

    /// A model without tensors, buffers and kernels.
    pub fn new() -> (m: Self)
        ensures
            m.pool.wf(),
            m.pool.held() == Seq::<BufferView>::empty(),
            m.cache.kernels@ == Map::<Seq<char>, Vec<u8>>::empty(),
            m.arch@ == ""@,
            m.descriptors@.len() == 0,
            m.metadata == no_metadata(),
            m.stated_dims is None,
            !m.has_runtime,
    {
        CudaModel {
            pool: BufferPool::new(),
            cache: KernelCache::new(),
            arch: String::from_str(""),
            descriptors: Vec::new(),
            metadata: GgufMetadata::default(),
            stated_dims: None,
            has_runtime: false,
        }
    }

    /// The first kernel that has to be compiled.
    pub fn next_kernel(&self) -> (r: Option<KernelSource>)
        ensures
            exists|set: Seq<KernelSource>|
                #![trigger first_missing(set, self.cache.kernels@, 0)]
                {
                    &&& set.len() == kernel_set().len()
                    &&& forall|i: int|
                        0 <= i < set.len() ==> (#[trigger] set[i]).name@ == kernel_set()[i].0
                            && set[i].source@ == kernel_set()[i].1
                    &&& r == first_missing(set, self.cache.kernels@, 0)
                },
    {
        let set: Vec<KernelSource> = kernel_sources();
        let r: Option<KernelSource> = self.cache.next_kernel(&set);
        assert(r == first_missing(set@, self.cache.kernels@, 0));
        r
    }

    /// A buffer of `len` elements, all of them zero.
    pub fn alloc_buffer(&mut self, dtype: DType, len: usize) -> (b: Buffer)
        requires
            old(self).pool.wf(),
            len * elem_bytes(dtype) <= usize::MAX,
        ensures
            final(self).pool.wf(),
            final(self).cache == old(self).cache,
            final(self).arch == old(self).arch,
            final(self).descriptors == old(self).descriptors,
            final(self).metadata == old(self).metadata,
            final(self).stated_dims == old(self).stated_dims,
            final(self).has_runtime == old(self).has_runtime,
            b@.wf(),
            match first_suiting(old(self).pool.held(), dtype, len, 0) {
                Some(i) => {
                    &&& b@ == old(self).pool.held()[i].reused(len)
                    &&& final(self).pool.held() == swapped_out(old(self).pool.held(), i)
                },
                None => {
                    &&& b@ == fresh_buffer(dtype, len)
                    &&& final(self).pool.held() == old(self).pool.held()
                },
            },
    {
        self.pool.alloc_buffer(dtype, len)
    }

    /// How the weights count as quantised.
    pub fn quant_kind(&self) -> (k: Ds4QuantKind)
        ensures
            k == match self.metadata.routed_quant {
                Some(q) => q,
                None => Ds4QuantKind::Q8_0,
            },
    {
        match self.metadata.routed_quant {
            Some(q) => q,
            None => Ds4QuantKind::Q8_0,
        }
    }

    /// The dimensions of the model.
    pub fn dims(&self) -> (r: Ds4Result<ModelDims>)
        requires
            self.countable(),
        ensures
            match self.model_fault() {
                Some(f) => r matches Err(e) && e.says(f),
                None => r == Ok::<ModelDims, Ds4Error>(self.model_dims()),
            },
    {
        match self.stated_dims {
            Some(d) => Ok(d),
            None => infer_dims(&self.descriptors, &self.metadata, false),
        }
    }

    /// Checks that the model is on a device.
    pub fn runtime(&self) -> (r: Ds4Result<()>)
        ensures
            if self.has_runtime {
                r is Ok
            } else {
                r matches Err(e) && e.says(no_runtime()->0)
            },
    {
        if self.has_runtime {
            Ok(())
        } else {
            Err(
                Ds4Error::new(
                    Ds4ErrorKind::NotImplemented,
                    String::from_str("CUDA model was not loaded with a device runtime"),
                ),
            )
        }
    }

    /// Number of bytes that a buffer of `len` elements takes on the device: at least one element,
    /// and at most what can be counted.
    pub fn alloc_f32(len: usize) -> (n: usize)
        ensures
            n == if len == 0 {
                4
            } else if len * 4 <= usize::MAX {
                len * 4
            } else {
                usize::MAX as int
            },
    {
        let n: usize = match len.checked_mul(4) {
            Some(n) => n,
            None => usize::MAX,
        };
        if n > 4 {
            n
        } else {
            4
        }
    }

    fn unsupported_error(name: &str, d: GgufDType) -> (e: Ds4Error)
        ensures
            unsupported(name@, d) matches Some(f) && e.says(f),
    {
        let mut m: String = String::from_str("tensor ");
        m.append(name);
        m.append(" dtype ");
        m.append(d.name());
        m.append(" is not supported by the CUDA runtime path");
        Ds4Error::new(Ds4ErrorKind::NotImplemented, m)
    }

    /// The number under which the kernels know the format of a tensor.
    pub fn tensor_dtype_code(&self, name: &str) -> (r: Ds4Result<i32>)
        ensures
            match self.weight_fault(name@) {
                Some(f) => r matches Err(e) && e.says(f),
                None => {
                    &&& r matches Ok(code)
                    &&& descriptor_of(self.descriptors@, name@) matches Some(d)
                    &&& format_code(d.dtype) == Some(code)
                },
            },
    {
        match find_descriptor(&self.descriptors, name) {
            None => Err(missing_tensor_error(name)),
            Some(d) => match dtype_code(d.dtype) {
                Some(code) => Ok(code),
                None => Err(Self::unsupported_error(name, d.dtype)),
            },
        }
    }

    /// Checks a product of a vector with a tensor, and gives the number of the tensor's format.
    pub fn launch_matvec_to(&self, name: &str, input: usize, out: usize) -> (r: Ds4Result<i32>)
        ensures
            match self.matvec_fault(name@, input, out) {
                Some(f) => r matches Err(e) && e.says(f),
                None => {
                    &&& r matches Ok(code)
                    &&& descriptor_of(self.descriptors@, name@) matches Some(d)
                    &&& format_code(d.dtype) == Some(code)
                },
            },
    {
        let desc: &TensorDescriptor = match find_descriptor(&self.descriptors, name) {
            Some(d) => d,
            None => return Err(missing_tensor_error(name)),
        };
        if desc.dims.len() != 2 {
            return Err(bad_shape_error(name, &desc.dims));
        }
        let in_dim: usize = desc.dims[0] as usize;
        let out_dim: usize = desc.dims[1] as usize;
        if input != in_dim || out != out_dim {
            let mut m: String = String::from_str(name);
            m.append(" matvec shape mismatch: input=");
            push_dec(&mut m, input as u64);
            m.append(" expected=");
            push_dec(&mut m, in_dim as u64);
            m.append(", out=");
            push_dec(&mut m, out as u64);
            m.append(" expected=");
            push_dec(&mut m, out_dim as u64);
            return Err(Ds4Error::new(Ds4ErrorKind::Model, m));
        }
        match dtype_code(desc.dtype) {
            Some(code) => Ok(code),
            None => Err(Self::unsupported_error(name, desc.dtype)),
        }
    }

    /// Checks the embedding of a token, and gives the number of the table's format.
    pub fn launch_embedding(&self, token: u32, dims: ModelDims) -> (r: Ds4Result<i32>)
        ensures
            match self.embedding_fault(token, dims) {
                Some(f) => r matches Err(e) && e.says(f),
                None => {
                    &&& r matches Ok(code)
                    &&& descriptor_of(self.descriptors@, "token_embd.weight"@) matches Some(d)
                    &&& format_code(d.dtype) == Some(code)
                },
            },
    {
        let d: &TensorDescriptor = match find_descriptor(&self.descriptors, "token_embd.weight") {
            Some(d) => d,
            None => return Err(missing_tensor_error("token_embd.weight")),
        };
        if token as usize >= dims.vocab {
            let mut m: String = String::from_str("token id ");
            push_dec(&mut m, token as u64);
            m.append(" is outside vocabulary size ");
            push_dec(&mut m, dims.vocab as u64);
            return Err(Ds4Error::new(Ds4ErrorKind::InvalidArgument, m));
        }
        match dtype_code(d.dtype) {
            Some(code) => Ok(code),
            None => Err(Self::unsupported_error("token_embd.weight", d.dtype)),
        }
    }

    fn check_op(&self, names: &LayerTensorNames, op: LayerOp) -> (r: Ds4Result<()>)
        ensures
            match self.op_fault(*names, op) {
                Some(f) => r matches Err(e) && e.says(f),
                None => r is Ok,
            },
    {
        match op {
            LayerOp::RmsNorm { from, weight, to, n } => {
                self.tensor_dtype_code(names.weight(weight))?;
                Ok(())
            },
            LayerOp::Matvec { from, weight, to, in_dim, out_dim } => {
                self.launch_matvec_to(names.weight(weight), in_dim, out_dim)?;
                Ok(())
            },
            _ => Ok(()),
        }
    }

    fn check_ops(&self, names: &LayerTensorNames, ops: &Vec<LayerOp>) -> (r: Ds4Result<()>)
        ensures
            match first_fault(ops@, |op: LayerOp| self.op_fault(*names, op), 0) {
                Some(f) => r matches Err(e) && e.says(f),
                None => r is Ok,
            },
    {
        let ghost check = |op: LayerOp| self.op_fault(*names, op);
        let mut i: usize = 0;
        while i < ops.len()
            invariant
                i <= ops@.len(),
                check == (|op: LayerOp| self.op_fault(*names, op)),
                first_fault(ops@, check, 0) == first_fault(ops@, check, i as int),
            decreases ops@.len() - i,
        {
            assert(check(ops@[i as int]) == self.op_fault(*names, ops@[i as int]));
            self.check_op(names, ops[i])?;
            i += 1;
        }
        Ok(())
    }

    /// Lays out the kernels of a layer for a token. A kernel that cannot run is reported, the
    /// first one in order.
    pub fn forward_layer_at(&self, names: &LayerTensorNames, dims: ModelDims, at: LayerPos) -> (r:
        Ds4Result<Vec<LayerOp>>)
        requires
            at.countable(dims.hidden),
        ensures
            match self.layer_fault(*names, dims, at) {
                Some(f) => r matches Err(e) && e.says(f),
                None => r matches Ok(ops) && ops@ == attention_ops(dims, at) + dense_ops(dims),
            },
    {
        let mut ops: Vec<LayerOp> = attention_kernels(dims, at);
        self.check_ops(names, &ops)?;
        match &names.ffn {
            FfnTensorNames::Dense { gate, up, down } => {},
            FfnTensorNames::RoutedMoe {
                router,
                expert_layout,
                shared_gate,
                shared_up,
                shared_down,
            } => {
                return Err(
                    Ds4Error::new(
                        Ds4ErrorKind::NotImplemented,
                        String::from_str(
                            "CUDA routed-MoE FFN execution requires expert dispatch kernels",
                        ),
                    ),
                );
            },
        }
        let tail: Vec<LayerOp> = dense_kernels(dims);
        self.check_ops(names, &tail)?;
        let mut j: usize = 0;
        while j < tail.len()
            invariant
                j <= tail@.len(),
                ops@ == attention_ops(dims, at) + tail@.take(j as int),
            decreases tail@.len() - j,
        {
            ops.push(tail[j]);
            j += 1;
            assert(ops@ =~= attention_ops(dims, at) + tail@.take(j as int));
        }
        assert(tail@.take(j as int) =~= tail@);
        Ok(ops)
    }

    fn check_layers(&self, names: &Vec<LayerTensorNames>, dims: ModelDims, at: LayerPos) -> (r:
        Ds4Result<()>)
        requires
            at.countable(dims.hidden),
        ensures
            match self.layers_fault(names@, dims, at, 0) {
                Some(f) => r matches Err(e) && e.says(f),
                None => r is Ok,
            },
    {
        let mut i: usize = 0;
        while i < names.len()
            invariant
                i <= names@.len(),
                at.countable(dims.hidden),
                self.layers_fault(names@, dims, at, 0) == self.layers_fault(
                    names@,
                    dims,
                    at,
                    i as int,
                ),
            decreases names@.len() - i,
        {
            self.forward_layer_at(&names[i], dims, at)?;
            i += 1;
        }
        Ok(())
    }

    /// Lays out a layer slice. `names` are the tensors of the layers of the slice, in order. The
    /// calls run on the hidden state of each token in turn, in a cache of as many rows as there
    /// are tokens.
    pub fn compute_layer_slice(
        &self,
        names: &Vec<LayerTensorNames>,
        token_ids: usize,
        pos0: usize,
        layer_start: usize,
        layer_end: usize,
        input_len: usize,
        output_len: usize,
    ) -> (r: Ds4Result<Vec<LayerCall>>)
        requires
            self.countable(),
            self.slice_fault(token_ids as nat, layer_start, layer_end, input_len, output_len)
                is None ==> ({
                let dims = self.model_dims();
                &&& dims.hidden > 0
                &&& slice_names(names@, layer_start, layer_end, self.stated_dims is Some)
                &&& layer_start < layer_end && input_len > 0 ==> pos0 + input_len / dims.hidden
                    <= usize::MAX + 1
            }),
        ensures
            match self.slice_fault(token_ids as nat, layer_start, layer_end, input_len, output_len) {
                Some(f) => r matches Err(e) && e.says(f),
                None => {
                    let dims = self.model_dims();
                    let n_tokens = input_len / dims.hidden;
                    if layer_start == layer_end || n_tokens == 0 {
                        r matches Ok(calls) && calls@.len() == 0
                    } else if !self.has_runtime {
                        r matches Err(e) && e.says(no_runtime()->0)
                    } else {
                        match self.layers_fault(
                            names@,
                            dims,
                            LayerPos { rope_pos: pos0, cache_pos: 0, prefix_len: 1 },
                            0,
                        ) {
                            Some(f) => r matches Err(e) && e.says(f),
                            None => r matches Ok(calls) && calls@ == slice_calls(
                                pos0,
                                layer_start,
                                layer_end,
                                n_tokens,
                            ),
                        }
                    }
                },
            },
    {
        let dims: ModelDims = self.dims()?;
        if layer_end < layer_start || layer_end > dims.layers {
            let mut m: String = String::from_str("invalid layer slice ");
            push_dec(&mut m, layer_start as u64);
            m.append("..");
            push_dec(&mut m, layer_end as u64);
            return Err(Ds4Error::new(Ds4ErrorKind::InvalidArgument, m));
        }
        let n_tokens: usize = check_slice_buffers(token_ids, dims.hidden, input_len, output_len)?;
        if layer_start == layer_end || n_tokens == 0 {
            return Ok(Vec::new());
        }
        self.runtime()?;
        let at = LayerPos { rope_pos: pos0, cache_pos: 0, prefix_len: 1 };
        assert(at.countable(dims.hidden)) by {
            assert(0 * dims.hidden == 0 && 1 * dims.hidden == dims.hidden) by (nonlinear_arith);
        }
        self.check_layers(names, dims, at)?;
        Ok(layer_calls(pos0, layer_start, layer_end, n_tokens))
    }

    /// Lays out the output head: for each token its part of the hidden state and of the logits,
    /// and whether the output norm comes first.
    pub fn eval_output_head_from_hc(&self, n_tokens: usize, logits_len: usize) -> (r: Ds4Result<
        HeadPlan,
    >)
        requires
            n_tokens > 0 && self.has_runtime ==> self.countable(),
            self.model_fault() is None ==> run_countable(self.model_dims(), n_tokens as nat),
        ensures
            match self.head_fault(n_tokens, logits_len) {
                Some(f) => r matches Err(e) && e.says(f),
                None => {
                    &&& r matches Ok(p)
                    &&& p.norm == (n_tokens > 0 && descriptor_of(
                        self.descriptors@,
                        "output_norm.weight"@,
                    ) is Some)
                    &&& p.calls@ == head_calls(self.model_dims(), n_tokens as nat)
                },
            },
    {
        if n_tokens == 0 {
            let none: Vec<HeadCall> = Vec::new();
            assert(none@ =~= head_calls(self.model_dims(), 0));
            return Ok(HeadPlan { norm: false, calls: none });
        }
        self.runtime()?;
        let dims: ModelDims = self.dims()?;
        let needed: usize = n_tokens * dims.vocab;
        if logits_len < needed {
            return Err(Self::small_logits(logits_len, needed));
        }
        let norm: bool = find_descriptor(&self.descriptors, "output_norm.weight").is_some();
        if norm {
            self.tensor_dtype_code("output_norm.weight")?;
        }
        self.launch_matvec_to("output.weight", dims.hidden, dims.vocab)?;
        Ok(HeadPlan { norm, calls: list_head_calls(dims, n_tokens) })
    }

    fn small_logits(len: usize, needed: usize) -> (e: Ds4Error)
        ensures
            e.is(
                Ds4ErrorKind::InvalidArgument,
                "logit buffer too small: "@ + dec(len as nat) + " < "@ + dec(needed as nat),
            ),
    {
        let mut m: String = String::from_str("logit buffer too small: ");
        push_dec(&mut m, len as u64);
        m.append(" < ");
        push_dec(&mut m, needed as u64);
        Ds4Error::new(Ds4ErrorKind::InvalidArgument, m)
    }

    /// Lays out the evaluation of a sequence: all layers for each token in turn, in a cache of as
    /// many rows as there are tokens. The logits are those of the last token, without the output
    /// norm. `names` are the tensors of all layers.
    pub fn compute_sequence_logits(
        &self,
        names: &Vec<LayerTensorNames>,
        tokens: &[u32],
        out_len: usize,
    ) -> (r: Ds4Result<Vec<LayerCall>>)
        requires
            self.countable(),
            self.model_fault() is None ==> slice_names(
                names@,
                0,
                self.model_dims().layers,
                self.stated_dims is Some,
            ),
        ensures
            match self.sequence_fault(names@, tokens@, out_len) {
                Some(f) => r matches Err(e) && e.says(f),
                None => r matches Ok(calls) && calls@ == slice_calls(
                    0,
                    0,
                    self.model_dims().layers,
                    tokens@.len() as usize,
                ),
            },
    {
        if tokens.len() == 0 {
            return Err(
                Ds4Error::new(
                    Ds4ErrorKind::InvalidArgument,
                    String::from_str("token sequence is empty"),
                ),
            );
        }
        let dims: ModelDims = self.dims()?;
        if out_len < dims.vocab {
            return Err(Self::small_logits(out_len, dims.vocab));
        }
        self.runtime()?;
        self.launch_embedding(tokens[0], dims)?;
        let at = LayerPos { rope_pos: 0, cache_pos: 0, prefix_len: 1 };
        assert(at.countable(dims.hidden)) by {
            assert(0 * dims.hidden == 0 && 1 * dims.hidden == dims.hidden) by (nonlinear_arith);
        }
        self.check_layers(names, dims, at)?;
        self.launch_matvec_to("output.weight", dims.hidden, dims.vocab)?;
        let mut i: usize = 1;
        while i < tokens.len()
            invariant
                1 <= i <= tokens@.len(),
                self.tokens_fault(tokens@, dims, 1) == self.tokens_fault(tokens@, dims, i as int),
                self.sequence_fault(names@, tokens@, out_len) == self.tokens_fault(
                    tokens@,
                    dims,
                    1,
                ),
            decreases tokens@.len() - i,
        {
            self.launch_embedding(tokens[i], dims)?;
            i += 1;
        }
        Ok(layer_calls(0, 0, dims.layers, tokens.len()))
    }
}

/// What stands against a layer does not depend on the token: the layout of a slice and of a
/// sequence checks the layers once.
pub proof fn law_cuda_faults_uniform(
    m: CudaModel,
    names: LayerTensorNames,
    dims: ModelDims,
    a: LayerPos,
    b: LayerPos,
)
    ensures
        m.layer_fault(names, dims, a) == m.layer_fault(names, dims, b),
{
    let check = |op: LayerOp| m.op_fault(names, op);
    let x = attention_ops(dims, a);
    let y = attention_ops(dims, b);
    assert forall|i: int| 0 <= i < x.len() implies check(#[trigger] x[i]) == check(y[i]) by {}
    lemma_first_fault_eq(x, check, y, check, 0);
}

/// The numbers that the kernels have for the formats that they read: they count up in this order,
/// and a format without a name has none.
pub proof fn law_format_codes(d: GgufDType, code: i32)
    ensures
        format_code(d) == Some(code) ==> 0 <= code < 7 && d == seq![
            GgufDType::F32,
            GgufDType::F16,
            GgufDType::Q8_0,
            GgufDType::Q4_K,
            GgufDType::Q3_K,
            GgufDType::Q2_K,
            GgufDType::Iq2Xxs,
        ][code as int],
        format_code(d) is None <==> d == GgufDType::Other,
{
}

} // verus!
