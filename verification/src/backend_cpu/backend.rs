//! CPU model: tensors by name, and what an evaluation reads of them.
//!
//! The arithmetic is the caller's. An evaluation is checked and laid out first: the plan says
//! which kernels run on which elements, and a plan that was handed out cannot fail any more.

use vstd::prelude::*;
use vstd::string::StringExecFns;

use super::attention::{
    attention_countable, attention_fault, check_attention, AttentionLens,
};
use super::decode::{
    blocks_full, bytes_needed, decode_f16, decode_f32, first_elements, join_blocks,
    joined, law_blocks_full, layout_of, quant_shape, tensor_countable, tensor_fault, u16_at,
};
use crate::engine::ModelDims;
use crate::gguf::{
    count_up_to, descriptor_of, element_count, find_descriptor, no_metadata, GgufDType,
    GgufMetadata, TensorDescriptor,
};
use crate::graph::{
    attention_kernels, attention_ops, bad_shape, bad_shape_error, dense_kernels, dense_ops,
    dims_countable, dims_fault, dims_from, first_fault, infer_dims, layer_calls, missing_tensor,
    missing_tensor_error, slice_calls, slice_names, weight_name, FfnTensorNames, LayerCall, LayerOp, LayerPos,
    LayerTensorNames, LayerWeight,
};
use crate::half::same_number;
use crate::le::words_of;
use crate::slices::{copy_bytes, copy_words};
use crate::table::NameTable;
use crate::text::{dec, push_dec, quote, quoted};
use crate::types::{fault, said, Ds4Error, Ds4ErrorKind, Ds4QuantKind, Ds4Result, Fault};

verus! {

/// A tensor in memory.
#[derive(Debug)]
pub enum TensorData {
    /// Bit patterns of single-precision elements.
    F32(Vec<u32>),
    Q8_0(Vec<u8>),
    Q4_K(Vec<u8>),
    Iq2Xxs(Vec<u8>),
    F16(Vec<u8>),
    /// The bytes of a format that is not read.
    Unknown(Vec<u8>),
}

impl TensorData {
    /// Number of elements, as far as it is known: 0 unless they are single precision.
    pub fn n_elements(&self) -> (n: usize)
        ensures
            n == match *self {
                TensorData::F32(v) => v@.len(),
                _ => 0,
            },
    {
        match self {
            TensorData::F32(v) => v.len(),
            _ => 0,
        }
    }

    /// The raw bytes; none if the elements are single precision.
    pub fn as_bytes(&self) -> (r: &[u8])
        ensures
            r@ == match *self {
                TensorData::F32(_) => Seq::empty(),
                TensorData::Q8_0(v) => v@,
                TensorData::Q4_K(v) => v@,
                TensorData::Iq2Xxs(v) => v@,
                TensorData::F16(v) => v@,
                TensorData::Unknown(v) => v@,
            },
    {
        match self {
            TensorData::F32(_) => {
                let none: &[u8] = &[];
                assert(none@ =~= Seq::<u8>::empty());
                none
            },
            TensorData::Q8_0(v) => v.as_slice(),
            TensorData::Q4_K(v) => v.as_slice(),
            TensorData::Iq2Xxs(v) => v.as_slice(),
            TensorData::F16(v) => v.as_slice(),
            TensorData::Unknown(v) => v.as_slice(),
        }
    }

    /// The bit patterns of the elements, if they are single precision.
    pub fn as_f32_bits(&self) -> (r: Option<&[u32]>)
        ensures
            match r {
                Some(s) => *self matches TensorData::F32(v) && s@ == v@,
                None => !(*self is F32),
            },
    {
        match self {
            TensorData::F32(v) => Some(v.as_slice()),
            _ => None,
        }
    }
}

/// A model in memory.
#[derive(Debug)]
pub struct CpuModel {
    pub tensors: NameTable<TensorData>,
    pub descriptors: Vec<TensorDescriptor>,
    pub metadata: GgufMetadata,
    /// The dimensions, where the model file states them.
    pub stated_dims: Option<ModelDims>,
    pub elements: usize,
}

/// A tensor of a model file.
#[derive(Debug)]
pub struct LoadedTensor {
    pub descriptor: TensorDescriptor,
    /// What reading its bytes came to.
    pub bytes: Ds4Result<Vec<u8>>,
    /// In a format of blocks, the bit patterns of the elements of each block, in order. In other
    /// formats they are not looked at.
    pub blocks: Vec<Vec<u32>>,
}

/// A part of the hidden state and the part of the logits that comes from it.
#[derive(Debug, Clone, Copy, PartialEq, Eq, Structural)]
pub struct HeadCall {
    pub hidden_start: usize,
    pub hidden_end: usize,
    pub logits_start: usize,
    pub logits_end: usize,
}

/// What the output head is to run: for each token its part of the hidden state and of the logits,
/// and whether the output norm comes first.
#[derive(Debug)]
pub struct HeadPlan {
    pub norm: bool,
    pub calls: Vec<HeadCall>,
}

/// The hidden state is made of whole rows of heads, and a head of pairs of elements.
pub open spec fn rotatable(dims: ModelDims) -> bool {
    &&& dims.n_heads * dims.head_dim > 0
    &&& dims.head_dim % 2 == 0
    &&& dims.hidden as int % (dims.n_heads * dims.head_dim) == 0
}

/// A kernel of a layer stays inside the caches, and has whole pairs to rotate.
pub open spec fn op_runs(op: LayerOp, dims: ModelDims, k_len: usize, v_len: usize) -> bool {
    match op {
        LayerOp::Rope { buf, pos, n_heads, head_dim } => {
            &&& n_heads == dims.n_heads
            &&& head_dim == dims.head_dim
            &&& rotatable(dims)
        },
        LayerOp::StoreK { start, n } => start + n <= k_len,
        LayerOp::StoreV { start, n } => start + n <= v_len,
        LayerOp::Attention { prefix_len, prefix_values, n_heads, head_dim } => prefix_values
            <= k_len && prefix_values <= v_len,
        _ => true,
    }
}

/// The fault of a tensor that is there, but not as single precision.
pub open spec fn not_f32(name: Seq<char>) -> Option<Fault> {
    fault(Ds4ErrorKind::NotImplemented, "tensor "@ + name + " is not available as f32"@)
}

impl CpuModel {
    /// The single-precision elements under a name.
    pub open spec fn f32_values(self, name: Seq<char>) -> Seq<u32> {
        match self.tensors@[name] {
            TensorData::F32(v) => v@,
            _ => Seq::empty(),
        }
    }

    /// What stands against reading a tensor as single precision.
    pub open spec fn f32_fault(self, name: Seq<char>) -> Option<Fault> {
        if !self.tensors@.contains_key(name) {
            missing_tensor(name)
        } else if self.tensors@[name] is F32 {
            None
        } else {
            not_f32(name)
        }
    }

    /// What stands against multiplying a vector of `input` elements with a tensor to get `out`
    /// elements.
    pub open spec fn matvec_fault(self, name: Seq<char>, input: usize, out: usize) -> Option<Fault> {
        match descriptor_of(self.descriptors@, name) {
            None => missing_tensor(name),
            Some(d) => if d.dims@.len() != 2 {
                bad_shape(name, d.dims@)
            } else if input != d.dims@[0] || out != d.dims@[1] {
                fault(
                    Ds4ErrorKind::Model,
                    name + " matvec shape mismatch: input="@ + dec(input as nat) + " expected="@
                        + dec(d.dims@[0] as nat) + ", out="@ + dec(out as nat) + " expected="@ + dec(
                        d.dims@[1] as nat,
                    ),
                )
            } else if self.f32_fault(name) is Some {
                self.f32_fault(name)
            } else if self.f32_values(name).len() < d.dims@[0] * d.dims@[1] {
                fault(
                    Ds4ErrorKind::Model,
                    name + " has "@ + dec(self.f32_values(name).len()) + " values, needs "@ + dec(
                        (d.dims@[0] * d.dims@[1]) as nat,
                    ),
                )
            } else {
                None
            },
        }
    }

    /// What stands against a norm with this weight.
    pub open spec fn norm_fault(self, name: Seq<char>, hidden: usize) -> Option<Fault> {
        if self.f32_fault(name) is Some {
            self.f32_fault(name)
        } else if self.f32_values(name).len() != hidden {
            fault(Ds4ErrorKind::Model, name + " length mismatch"@)
        } else {
            None
        }
    }

    /// What stands against a kernel of a layer.
    pub open spec fn op_fault(
        self,
        names: LayerTensorNames,
        dims: ModelDims,
        at: LayerPos,
        k_len: usize,
        v_len: usize,
        op: LayerOp,
    ) -> Option<Fault> {
        match op {
            LayerOp::RmsNorm { from, weight, to, n } => self.norm_fault(
                weight_name(names, weight),
                n,
            ),
            LayerOp::Matvec { from, weight, to, in_dim, out_dim } => self.matvec_fault(
                weight_name(names, weight),
                in_dim,
                out_dim,
            ),
            LayerOp::StoreK { start, n } => if k_len < at.prefix_len * dims.hidden || v_len
                < at.prefix_len * dims.hidden {
                fault(
                    Ds4ErrorKind::InvalidArgument,
                    "attention cache is too small for requested prefix"@,
                )
            } else {
                None
            },
            LayerOp::Attention { prefix_len, prefix_values, n_heads, head_dim } =>
            match attention_fault(
                AttentionLens {
                    q: dims.hidden,
                    k_cache: prefix_values,
                    v_cache: prefix_values,
                    out: dims.hidden,
                },
                prefix_len,
                n_heads,
                head_dim,
            ) {
                Some(text) => fault(Ds4ErrorKind::Model, text),
                None => None,
            },
            _ => None,
        }
    }

    /// What stands against running a layer.
    pub open spec fn layer_fault(
        self,
        names: LayerTensorNames,
        dims: ModelDims,
        at: LayerPos,
        k_len: usize,
        v_len: usize,
    ) -> Option<Fault> {
        let check = |op: LayerOp| self.op_fault(names, dims, at, k_len, v_len, op);
        if first_fault(attention_ops(dims, at), check, 0) is Some {
            first_fault(attention_ops(dims, at), check, 0)
        } else if names.ffn is RoutedMoe {
            fault(
                Ds4ErrorKind::NotImplemented,
                "CPU routed-MoE FFN execution requires expert dispatch"@,
            )
        } else {
            first_fault(dense_ops(dims), check, 0)
        }
    }

    /// A layer gets as far as rotating its queries and keys.
    pub open spec fn reaches_rope(self, names: LayerTensorNames, dims: ModelDims) -> bool {
        let h = dims.hidden;
        &&& self.norm_fault(weight_name(names, LayerWeight::AttnNorm), h) is None
        &&& self.matvec_fault(weight_name(names, LayerWeight::AttnQ), h, h) is None
        &&& self.matvec_fault(weight_name(names, LayerWeight::AttnK), h, h) is None
        &&& self.matvec_fault(weight_name(names, LayerWeight::AttnV), h, h) is None
    }

    /// Where a layer gets as far as rotating, its heads can be rotated, and where it gets as far as
    /// storing, the token's row lies in the caches.
    pub open spec fn layer_runs(
        self,
        names: LayerTensorNames,
        dims: ModelDims,
        at: LayerPos,
        k_len: usize,
        v_len: usize,
    ) -> bool {
        let prefix = at.prefix_len * dims.hidden;
        let end = at.cache_pos * dims.hidden + dims.hidden;
        self.reaches_rope(names, dims) ==> {
            &&& rotatable(dims)
            &&& prefix <= k_len && prefix <= v_len ==> end <= k_len && end <= v_len
        }
    }

    /// Where layers start with one that gets as far as rotating, the heads can be rotated.
    pub open spec fn layers_run(self, names: Seq<LayerTensorNames>, dims: ModelDims) -> bool {
        names.len() > 0 && self.reaches_rope(names[0], dims) ==> rotatable(dims)
    }

    proof fn lemma_reaches_rope(
        self,
        names: LayerTensorNames,
        dims: ModelDims,
        at: LayerPos,
        k_len: usize,
        v_len: usize,
    )
        requires
            at.countable(dims.hidden),
            self.layer_fault(names, dims, at, k_len, v_len) is None,
        ensures
            self.reaches_rope(names, dims),
            at.prefix_len * dims.hidden <= k_len,
            at.prefix_len * dims.hidden <= v_len,
    {
        let check = |op: LayerOp| self.op_fault(names, dims, at, k_len, v_len, op);
        let ops = attention_ops(dims, at);
        assert(first_fault(ops, check, 0) is None);
        reveal_with_fuel(first_fault, 8);
        assert(check(ops[0]) is None);
        assert(check(ops[1]) is None);
        assert(check(ops[2]) is None);
        assert(check(ops[3]) is None);
        assert(check(ops[6]) is None);
    }

    /// What stands against the dimensions.
    pub open spec fn model_fault(self) -> Option<Fault> {
        if self.stated_dims is Some {
            None
        } else {
            dims_fault(self.descriptors@, self.metadata, true)
        }
    }

    /// The dimensions.
    pub open spec fn model_dims(self) -> ModelDims {
        match self.stated_dims {
            Some(d) => d,
            None => dims_from(
                self.descriptors@,
                self.metadata,
                descriptor_of(self.descriptors@, "token_embd.weight"@).unwrap().dims@,
            ),
        }
    }

    /// The dimensions can be worked out on this machine.
    pub open spec fn countable(self) -> bool {
        self.stated_dims is None ==> dims_countable(self.descriptors@)
    }

    /// What stands against the embedding of a token.
    pub open spec fn embedding_fault(self, token: u32, dims: ModelDims) -> Option<Fault> {
        if self.f32_fault("token_embd.weight"@) is Some {
            self.f32_fault("token_embd.weight"@)
        } else if self.f32_values("token_embd.weight"@).len() < dims.vocab * dims.hidden {
            fault(
                Ds4ErrorKind::Model,
                "token_embd.weight has "@ + dec(self.f32_values("token_embd.weight"@).len())
                    + " values, needs "@ + dec((dims.vocab * dims.hidden) as nat),
            )
        } else if token >= dims.vocab {
            fault(
                Ds4ErrorKind::InvalidArgument,
                "token id "@ + dec(token as nat) + " is outside vocabulary size "@ + dec(
                    dims.vocab as nat,
                ),
            )
        } else {
            None
        }
    }

    /// The embedding of a token.
    pub open spec fn embedding_row(self, token: u32, hidden: usize) -> Seq<u32> {
        self.f32_values("token_embd.weight"@).subrange(
            token * hidden,
            token * hidden + hidden,
        )
    }

    /// What stands against the buffers and the range of a layer slice.
    pub open spec fn slice_fault(
        self,
        token_ids: nat,
        layer_start: usize,
        layer_end: usize,
        input: usize,
        output: usize,
    ) -> Option<Fault> {
        if self.model_fault() is Some {
            self.model_fault()
        } else {
            let dims = self.model_dims();
            if layer_end < layer_start {
                fault(
                    Ds4ErrorKind::InvalidArgument,
                    "invalid layer slice "@ + dec(layer_start as nat) + ".."@ + dec(
                        layer_end as nat,
                    ),
                )
            } else if dims.layers < layer_end {
                fault(
                    Ds4ErrorKind::InvalidArgument,
                    "layer slice "@ + dec(layer_start as nat) + ".."@ + dec(layer_end as nat)
                        + " exceeds model layer count "@ + dec(dims.layers as nat),
                )
            } else {
                slice_buffers_fault(token_ids, dims.hidden, input, output)
            }
        }
    }

    /// The first fault of the layers of a slice from `from` on.
    pub open spec fn layers_fault(
        self,
        names: Seq<LayerTensorNames>,
        dims: ModelDims,
        at: LayerPos,
        cache_len: usize,
        from: int,
    ) -> Option<Fault>
        decreases names.len() - from,
    {
        if from < 0 || from >= names.len() {
            None
        } else if self.layer_fault(names[from], dims, at, cache_len, cache_len) is Some {
            self.layer_fault(names[from], dims, at, cache_len, cache_len)
        } else {
            self.layers_fault(names, dims, at, cache_len, from + 1)
        }
    }

    /// What stands against the output norm, where there is one.
    pub open spec fn output_norm_fault(self, hidden: usize) -> Option<Fault> {
        if !self.tensors@.contains_key("output_norm.weight"@) {
            None
        } else if !(self.tensors@["output_norm.weight"@] is F32) {
            fault(
                Ds4ErrorKind::NotImplemented,
                "output_norm.weight is not available as f32"@,
            )
        } else if self.f32_values("output_norm.weight"@).len() != hidden {
            fault(
                Ds4ErrorKind::Model,
                "output_norm.weight length "@ + dec(self.f32_values("output_norm.weight"@).len())
                    + " != hidden "@ + dec(hidden as nat),
            )
        } else {
            None
        }
    }

    /// What stands against the output head.
    pub open spec fn head_fault(self, hidden_len: usize, n_tokens: usize, logits_len: usize) -> Option<
        Fault,
    > {
        if self.model_fault() is Some {
            self.model_fault()
        } else {
            let dims = self.model_dims();
            if n_tokens == 0 {
                if hidden_len == 0 {
                    None
                } else {
                    fault(
                        Ds4ErrorKind::InvalidArgument,
                        "n_tokens is zero but hidden_hc is not empty"@,
                    )
                }
            } else if hidden_len < n_tokens * dims.hidden {
                fault(
                    Ds4ErrorKind::InvalidArgument,
                    "hidden_hc too small: "@ + dec(hidden_len as nat) + " < "@ + dec(
                        (n_tokens * dims.hidden) as nat,
                    ),
                )
            } else if logits_len < n_tokens * dims.vocab {
                fault(
                    Ds4ErrorKind::InvalidArgument,
                    "logit buffer too small: "@ + dec(logits_len as nat) + " < "@ + dec(
                        (n_tokens * dims.vocab) as nat,
                    ),
                )
            } else if self.output_norm_fault(dims.hidden) is Some {
                self.output_norm_fault(dims.hidden)
            } else {
                self.matvec_fault("output.weight"@, dims.hidden, dims.vocab)
            }
        }
    }

    /// The first fault of the embeddings of tokens from `from` on.
    pub open spec fn tokens_fault(self, tokens: Seq<u32>, dims: ModelDims, from: int) -> Option<Fault>
        decreases tokens.len() - from,
    {
        if from < 0 || from >= tokens.len() {
            None
        } else if self.embedding_fault(tokens[from], dims) is Some {
            self.embedding_fault(tokens[from], dims)
        } else {
            self.tokens_fault(tokens, dims, from + 1)
        }
    }

    /// What stands against evaluating a sequence: of the first token all that can go wrong, of
    /// each later one only its embedding.
    pub open spec fn sequence_fault(
        self,
        names: Seq<LayerTensorNames>,
        tokens: Seq<u32>,
        out_len: usize,
    ) -> Option<Fault> {
        if tokens.len() == 0 {
            fault(Ds4ErrorKind::InvalidArgument, "token sequence is empty"@)
        } else if self.model_fault() is Some {
            self.model_fault()
        } else {
            let dims = self.model_dims();
            let at = LayerPos { rope_pos: 0, cache_pos: 0, prefix_len: 1 };
            let cache_len = (tokens.len() * dims.hidden) as usize;
            if out_len < dims.vocab {
                fault(
                    Ds4ErrorKind::InvalidArgument,
                    "logit buffer too small: "@ + dec(out_len as nat) + " < "@ + dec(
                        dims.vocab as nat,
                    ),
                )
            } else if self.embedding_fault(tokens[0], dims) is Some {
                self.embedding_fault(tokens[0], dims)
            } else if self.layers_fault(names, dims, at, cache_len, 0) is Some {
                self.layers_fault(names, dims, at, cache_len, 0)
            } else if self.head_fault(dims.hidden, 1, dims.vocab) is Some {
                self.head_fault(dims.hidden, 1, dims.vocab)
            } else {
                self.tokens_fault(tokens, dims, 1)
            }
        }
    }
}

/// What stands against the buffers of a layer slice. No buffer but an empty one is a multiple of 0.
pub open spec fn slice_buffers_fault(token_ids: nat, hidden: usize, input: usize, output: usize) -> Option<
    Fault,
> {
    if (hidden == 0 && input != 0) || (hidden > 0 && input % hidden != 0) {
        fault(
            Ds4ErrorKind::InvalidArgument,
            "input_hc length "@ + dec(input as nat) + " is not a multiple of hidden "@ + dec(
                hidden as nat,
            ),
        )
    } else if output < input {
        fault(
            Ds4ErrorKind::InvalidArgument,
            "output_hc too small: "@ + dec(output as nat) + " < "@ + dec(input as nat),
        )
    } else if hidden > 0 && token_ids != 0 && token_ids < input / hidden {
        fault(
            Ds4ErrorKind::InvalidArgument,
            "token slice too short: "@ + dec(token_ids) + " < "@ + dec((input / hidden) as nat),
        )
    } else {
        None
    }
}

/// The elements of the hidden states and of the logits of tokens can be counted on this machine.
pub open spec fn run_countable(dims: ModelDims, n_tokens: nat) -> bool {
    &&& n_tokens * dims.hidden <= usize::MAX
    &&& n_tokens * dims.vocab <= usize::MAX
}

/// A layer of a slice fails for one token exactly as it does for the first: nothing that can go
/// wrong depends on the token.
pub proof fn law_layer_faults_uniform(
    m: CpuModel,
    names: LayerTensorNames,
    dims: ModelDims,
    pos0: usize,
    t: usize,
    n_tokens: usize,
)
    requires
        t < n_tokens,
        n_tokens * dims.hidden <= usize::MAX,
        pos0 + n_tokens <= usize::MAX,
    ensures
        ({
            let cache_len = (n_tokens * dims.hidden) as usize;
            let first = LayerPos { rope_pos: pos0, cache_pos: 0, prefix_len: 1 };
            let later = LayerPos {
                rope_pos: (pos0 + t) as usize,
                cache_pos: t,
                prefix_len: (t + 1) as usize,
            };
            m.layer_fault(names, dims, later, cache_len, cache_len) == m.layer_fault(
                names,
                dims,
                first,
                cache_len,
                cache_len,
            )
        }),
{
    let cache_len = (n_tokens * dims.hidden) as usize;
    let first = LayerPos { rope_pos: pos0, cache_pos: 0, prefix_len: 1 };
    let later = LayerPos {
        rope_pos: (pos0 + t) as usize,
        cache_pos: t,
        prefix_len: (t + 1) as usize,
    };
    let c1 = |op: LayerOp| m.op_fault(names, dims, first, cache_len, cache_len, op);
    let c2 = |op: LayerOp| m.op_fault(names, dims, later, cache_len, cache_len, op);
    let a1 = attention_ops(dims, first);
    let a2 = attention_ops(dims, later);
    let d = dense_ops(dims);
    assert((t + 1) * dims.hidden <= n_tokens * dims.hidden && 1 * dims.hidden <= n_tokens
        * dims.hidden) by (nonlinear_arith)
        requires
            t < n_tokens,
    ;
    lemma_attention_uniform(dims, 1);
    lemma_attention_uniform(dims, (t + 1) as usize);
    assert forall|i: int| 0 <= i < a1.len() implies c1(#[trigger] a1[i]) == c2(a2[i]) by {}
    lemma_first_fault_eq(a1, c1, a2, c2, 0);
    assert forall|i: int| 0 <= i < d.len() implies c1(#[trigger] d[i]) == c2(d[i]) by {}
    lemma_first_fault_eq(d, c1, d, c2, 0);
}

proof fn lemma_layers_fault_concat(
    m: CpuModel,
    x: Seq<LayerTensorNames>,
    y: Seq<LayerTensorNames>,
    dims: ModelDims,
    at: LayerPos,
    cache_len: usize,
    from: int,
)
    requires
        0 <= from <= x.len() + y.len(),
    ensures
        m.layers_fault(x + y, dims, at, cache_len, from) == if from < x.len() {
            if m.layers_fault(x, dims, at, cache_len, from) is Some {
                m.layers_fault(x, dims, at, cache_len, from)
            } else {
                m.layers_fault(y, dims, at, cache_len, 0)
            }
        } else {
            m.layers_fault(y, dims, at, cache_len, from - x.len())
        },
    decreases x.len() + y.len() - from,
{
    if from < x.len() + y.len() {
        lemma_layers_fault_concat(m, x, y, dims, at, cache_len, from + 1);
        assert((x + y)[from] == if from < x.len() {
            x[from]
        } else {
            y[from - x.len()]
        });
    }
}

/// A range of layers can be run exactly if its two parts can, one after the other on the same
/// buffers: neither the range nor a layer stands against the one but not the other.
pub proof fn law_slice_faults_split(
    m: CpuModel,
    first: Seq<LayerTensorNames>,
    second: Seq<LayerTensorNames>,
    token_ids: nat,
    pos0: usize,
    a: usize,
    b: usize,
    c: usize,
    len: usize,
)
    requires
        a <= b <= c,
    ensures
        m.slice_fault(token_ids, a, c, len, len) is None <==> m.slice_fault(
            token_ids,
            a,
            b,
            len,
            len,
        ) is None && m.slice_fault(token_ids, b, c, len, len) is None,
        ({
            let dims = m.model_dims();
            let at = LayerPos { rope_pos: pos0, cache_pos: 0, prefix_len: 1 };
            m.layers_fault(first + second, dims, at, len, 0) is None <==> m.layers_fault(
                first,
                dims,
                at,
                len,
                0,
            ) is None && m.layers_fault(second, dims, at, len, 0) is None
        }),
{
    let at = LayerPos { rope_pos: pos0, cache_pos: 0, prefix_len: 1 };
    lemma_layers_fault_concat(m, first, second, m.model_dims(), at, len, 0);
}

proof fn lemma_attention_uniform(dims: ModelDims, prefix: usize)
    requires
        prefix * dims.hidden <= usize::MAX,
    ensures
        ({
            let values = (prefix * dims.hidden) as usize;
            let lens = AttentionLens {
                q: dims.hidden,
                k_cache: values,
                v_cache: values,
                out: dims.hidden,
            };
            attention_fault(lens, prefix, dims.n_heads, dims.head_dim) == if dims.head_dim == 0
                || dims.n_heads == 0 {
                Some("attention_decode: head_dim and n_heads must be > 0"@)
            } else if dims.hidden != dims.n_heads * dims.head_dim {
                Some("attention_decode: q length must equal n_heads * head_dim"@)
            } else {
                None
            }
        }),
{
    assert(prefix * dims.n_heads * dims.head_dim == prefix * (dims.n_heads * dims.head_dim))
        by (nonlinear_arith);
}

pub(crate) proof fn lemma_first_fault_eq(
    a: Seq<LayerOp>,
    f: spec_fn(LayerOp) -> Option<Fault>,
    b: Seq<LayerOp>,
    g: spec_fn(LayerOp) -> Option<Fault>,
    from: int,
)
    requires
        a.len() == b.len(),
        0 <= from,
        forall|i: int| 0 <= i < a.len() ==> f(#[trigger] a[i]) == g(b[i]),
    ensures
        first_fault(a, f, from) == first_fault(b, g, from),
    decreases a.len() - from,
{
    if from < a.len() {
        assert(f(a[from]) == g(b[from]));
        lemma_first_fault_eq(a, f, b, g, from + 1);
    }
}

fn sized_error(kind: Ds4ErrorKind, what: &str, a: usize, between: &str, b: usize) -> (e: Ds4Error)
    ensures
        e.is(kind, what@ + dec(a as nat) + between@ + dec(b as nat)),
{
    let mut m: String = String::from_str(what);
    push_dec(&mut m, a as u64);
    m.append(between);
    push_dec(&mut m, b as u64);
    Ds4Error::new(kind, m)
}

/// Checks the buffers of a layer slice.
pub(crate) fn check_slice_buffers(token_ids: usize, hidden: usize, input: usize, output: usize) -> (r:
    Ds4Result<usize>)
    requires
        hidden > 0 || input > 0,
    ensures
        match slice_buffers_fault(token_ids as nat, hidden, input, output) {
            Some(f) => r matches Err(e) && e.says(f),
            None => r == Ok::<usize, Ds4Error>((input / hidden) as usize),
        },
{
    if hidden == 0 || input % hidden != 0 {
        return Err(
            sized_error(
                Ds4ErrorKind::InvalidArgument,
                "input_hc length ",
                input,
                " is not a multiple of hidden ",
                hidden,
            ),
        );
    }
    if output < input {
        return Err(
            sized_error(
                Ds4ErrorKind::InvalidArgument,
                "output_hc too small: ",
                output,
                " < ",
                input,
            ),
        );
    }
    let n_tokens: usize = input / hidden;
    if token_ids != 0 && token_ids < n_tokens {
        return Err(
            sized_error(
                Ds4ErrorKind::InvalidArgument,
                "token slice too short: ",
                token_ids,
                " < ",
                n_tokens,
            ),
        );
    }
    Ok(n_tokens)
}

impl CpuModel {
    /// A model without tensors.
    pub fn new() -> (m: Self)
        ensures
            m.tensors@ == Map::<Seq<char>, TensorData>::empty(),
            m.descriptors@.len() == 0,
            m.metadata == no_metadata(),
            m.stated_dims is None,
            m.elements == 0,
    {
        CpuModel {
            tensors: NameTable::new(),
            descriptors: Vec::new(),
            metadata: GgufMetadata::default(),
            stated_dims: None,
            elements: 0,
        }
    }

    /// Puts a tensor under a name, in place of one that stands there.
    pub fn insert(&mut self, name: String, data: TensorData)
        ensures
            final(self).tensors@ == old(self).tensors@.insert(name@, data),
            final(self).descriptors == old(self).descriptors,
            final(self).metadata == old(self).metadata,
            final(self).stated_dims == old(self).stated_dims,
            final(self).elements == old(self).elements,
    {
        self.tensors.insert(name, data);
    }

    /// The tensor under a name.
    pub fn get(&self, name: &str) -> (r: Option<&TensorData>)
        ensures
            match r {
                Some(d) => self.tensors@.contains_key(name@) && *d == self.tensors@[name@],
                None => !self.tensors@.contains_key(name@),
            },
    {
        self.tensors.get(name)
    }

    /// The names of all tensors.
    pub fn names(&self) -> (r: Vec<String>)
        ensures
            r@.len() == self.tensors@.len(),
            forall|i: int| 0 <= i < r@.len() ==> self.tensors@.contains_key((#[trigger] r@[i])@),
            forall|i: int, j: int|
                0 <= i < j < r@.len() ==> (#[trigger] r@[i])@ != (#[trigger] r@[j])@,
    {
        self.tensors.names()
    }

    /// Number of tensors.
    pub fn len(&self) -> (n: usize)
        ensures
            n == self.tensors@.len(),
    {
        self.tensors.len()
    }

    /// `true` if there are no tensors.
    pub fn is_empty(&self) -> (r: bool)
        ensures
            r == (self.tensors@.len() == 0),
    {
        self.tensors.len() == 0
    }

    /// Number of elements that were read from the model file.
    pub fn n_elements(&self) -> (n: usize)
        ensures
            n == self.elements,
    {
        self.elements
    }

    /// The descriptor under a name.
    pub fn descriptor(&self, name: &str) -> (r: Option<&TensorDescriptor>)
        ensures
            match r {
                Some(d) => descriptor_of(self.descriptors@, name@) == Some(*d),
                None => descriptor_of(self.descriptors@, name@) is None,
            },
    {
        find_descriptor(&self.descriptors, name)
    }

    /// How the weights count as quantised.
    pub fn quant_kind(&self) -> (k: Ds4QuantKind)
        ensures
            k == Ds4QuantKind::F32,
    {
        Ds4QuantKind::F32
    }

    /// The single-precision elements under a name.
    pub fn f32_tensor(&self, name: &str) -> (r: Ds4Result<&Vec<u32>>)
        ensures
            match self.f32_fault(name@) {
                Some(f) => r matches Err(e) && e.says(f),
                None => r matches Ok(v) && v@ == self.f32_values(name@),
            },
    {
        match self.tensors.get(name) {
            Some(TensorData::F32(v)) => Ok(v),
            Some(_) => {
                let mut m: String = String::from_str("tensor ");
                m.append(name);
                m.append(" is not available as f32");
                Err(Ds4Error::new(Ds4ErrorKind::NotImplemented, m))
            },
            None => Err(missing_tensor_error(name)),
        }
    }

    /// The dimensions of the model.
    pub fn dims(&self) -> (r: Ds4Result<ModelDims>)
        requires
            self.countable(),
        ensures
            match self.model_fault() {
                Some(f) => r matches Err(e) && e.says(f),
                None => r == Ok::<ModelDims, Ds4Error>(self.model_dims()),
            },
    {
        match self.stated_dims {
            Some(d) => Ok(d),
            None => infer_dims(&self.descriptors, &self.metadata, true),
        }
    }

    /// Checks that a vector can be multiplied with a tensor.
    pub fn check_matvec(&self, name: &str, input: usize, out: usize) -> (r: Ds4Result<()>)
        ensures
            match self.matvec_fault(name@, input, out) {
                Some(f) => r matches Err(e) && e.says(f),
                None => r is Ok,
            },
    {
        let desc: &TensorDescriptor = match find_descriptor(&self.descriptors, name) {
            Some(d) => d,
            None => return Err(missing_tensor_error(name)),
        };
        if desc.dims.len() != 2 {
            return Err(bad_shape_error(name, &desc.dims));
        }
        let in_dim: usize = desc.dims[0] as usize;
        let out_dim: usize = desc.dims[1] as usize;
        if input != in_dim || out != out_dim {
            let mut m: String = String::from_str(name);
            m.append(" matvec shape mismatch: input=");
            push_dec(&mut m, input as u64);
            m.append(" expected=");
            push_dec(&mut m, in_dim as u64);
            m.append(", out=");
            push_dec(&mut m, out as u64);
            m.append(" expected=");
            push_dec(&mut m, out_dim as u64);
            return Err(Ds4Error::new(Ds4ErrorKind::Model, m));
        }
        let weights: &Vec<u32> = self.f32_tensor(name)?;
        assert(in_dim * out_dim <= 0xffff_ffff * 0xffff_ffff) by (nonlinear_arith)
            requires
                in_dim <= 0xffff_ffff,
                out_dim <= 0xffff_ffff,
        ;
        let needed: u64 = in_dim as u64 * out_dim as u64;
        if (weights.len() as u64) < needed {
            let mut m: String = String::from_str(name);
            m.append(" has ");
            push_dec(&mut m, weights.len() as u64);
            m.append(" values, needs ");
            push_dec(&mut m, needed);
            return Err(Ds4Error::new(Ds4ErrorKind::Model, m));
        }
        Ok(())
    }

    fn check_norm(&self, name: &str, hidden: usize) -> (r: Ds4Result<()>)
        ensures
            match self.norm_fault(name@, hidden) {
                Some(f) => r matches Err(e) && e.says(f),
                None => r is Ok,
            },
    {
        let weight: &Vec<u32> = self.f32_tensor(name)?;
        if weight.len() != hidden {
            let mut m: String = String::from_str(name);
            m.append(" length mismatch");
            return Err(Ds4Error::new(Ds4ErrorKind::Model, m));
        }
        Ok(())
    }

    /// The embedding of a token.
    pub fn embedding(&self, token: u32, dims: ModelDims) -> (r: Ds4Result<Vec<u32>>)
        requires
            dims.vocab * dims.hidden <= usize::MAX,
        ensures
            match self.embedding_fault(token, dims) {
                Some(f) => r matches Err(e) && e.says(f),
                None => r matches Ok(v) && v@ == self.embedding_row(token, dims.hidden),
            },
    {
        let table: &Vec<u32> = self.f32_tensor("token_embd.weight")?;
        let needed: usize = dims.vocab * dims.hidden;
        if table.len() < needed {
            return Err(
                sized_error(
                    Ds4ErrorKind::Model,
                    "token_embd.weight has ",
                    table.len(),
                    " values, needs ",
                    needed,
                ),
            );
        }
        let idx: usize = token as usize;
        if idx >= dims.vocab {
            return Err(
                sized_error(
                    Ds4ErrorKind::InvalidArgument,
                    "token id ",
                    idx,
                    " is outside vocabulary size ",
                    dims.vocab,
                ),
            );
        }
        assert(idx * dims.hidden + dims.hidden <= dims.vocab * dims.hidden) by (nonlinear_arith)
            requires
                idx < dims.vocab,
        ;
        let start: usize = idx * dims.hidden;
        Ok(copy_words(table.as_slice(), start, start + dims.hidden))
    }

    fn check_op(
        &self,
        names: &LayerTensorNames,
        dims: ModelDims,
        at: LayerPos,
        k_len: usize,
        v_len: usize,
        op: LayerOp,
    ) -> (r: Ds4Result<()>)
        requires
            at.countable(dims.hidden),
            op matches LayerOp::Attention { prefix_len, prefix_values, n_heads, head_dim }
                ==> attention_countable(prefix_len, n_heads, head_dim),
        ensures
            match self.op_fault(*names, dims, at, k_len, v_len, op) {
                Some(f) => r matches Err(e) && e.says(f),
                None => r is Ok,
            },
    {
        match op {
            LayerOp::RmsNorm { from, weight, to, n } => self.check_norm(names.weight(weight), n),
            LayerOp::Matvec { from, weight, to, in_dim, out_dim } => self.check_matvec(
                names.weight(weight),
                in_dim,
                out_dim,
            ),
            LayerOp::StoreK { start, n } => {
                let needed: usize = at.prefix_len * dims.hidden;
                if k_len < needed || v_len < needed {
                    Err(
                        Ds4Error::new(
                            Ds4ErrorKind::InvalidArgument,
                            String::from_str("attention cache is too small for requested prefix"),
                        ),
                    )
                } else {
                    Ok(())
                }
            },
            LayerOp::Attention { prefix_len, prefix_values, n_heads, head_dim } => {
                let lens = AttentionLens {
                    q: dims.hidden,
                    k_cache: prefix_values,
                    v_cache: prefix_values,
                    out: dims.hidden,
                };
                match check_attention(lens, prefix_len, n_heads, head_dim) {
                    Ok(()) => Ok(()),
                    Err(text) => Err(Ds4Error::new(Ds4ErrorKind::Model, String::from_str(text))),
                }
            },
            _ => Ok(()),
        }
    }

    /// Lays out the kernels of a layer for a token. A kernel that cannot run is reported, the
    /// first one in order. The kernels that are handed out stay inside the caches.
    pub fn forward_layer_at(
        &self,
        names: &LayerTensorNames,
        dims: ModelDims,
        at: LayerPos,
        k_len: usize,
        v_len: usize,
    ) -> (r: Ds4Result<Vec<LayerOp>>)
        requires
            at.countable(dims.hidden),
            attention_countable(at.prefix_len, dims.n_heads, dims.head_dim),
            self.layer_runs(*names, dims, at, k_len, v_len),
        ensures
            match self.layer_fault(*names, dims, at, k_len, v_len) {
                Some(f) => r matches Err(e) && e.says(f),
                None => {
                    &&& r matches Ok(ops)
                    &&& ops@ == attention_ops(dims, at) + dense_ops(dims)
                    &&& forall|i: int|
                        0 <= i < ops@.len() ==> op_runs(#[trigger] ops@[i], dims, k_len, v_len)
                },
            },
    {
        let ghost check = |op: LayerOp| self.op_fault(*names, dims, at, k_len, v_len, op);
        let mut ops: Vec<LayerOp> = attention_kernels(dims, at);
        let mut i: usize = 0;
        while i < ops.len()
            invariant
                i <= ops@.len(),
                ops@ == attention_ops(dims, at),
                at.countable(dims.hidden),
                attention_countable(at.prefix_len, dims.n_heads, dims.head_dim),
                check == (|op: LayerOp| self.op_fault(*names, dims, at, k_len, v_len, op)),
                first_fault(ops@, check, 0) == first_fault(ops@, check, i as int),
            decreases ops@.len() - i,
        {
            assert(check(ops@[i as int]) == self.op_fault(
                *names,
                dims,
                at,
                k_len,
                v_len,
                ops@[i as int],
            ));
            self.check_op(names, dims, at, k_len, v_len, ops[i])?;
            i += 1;
        }
        match &names.ffn {
            FfnTensorNames::Dense { gate, up, down } => {},
            FfnTensorNames::RoutedMoe {
                router,
                expert_layout,
                shared_gate,
                shared_up,
                shared_down,
            } => {
                return Err(
                    Ds4Error::new(
                        Ds4ErrorKind::NotImplemented,
                        String::from_str(
                            "CPU routed-MoE FFN execution requires expert dispatch",
                        ),
                    ),
                );
            },
        }
        let tail: Vec<LayerOp> = dense_kernels(dims);
        let mut j: usize = 0;
        while j < tail.len()
            invariant
                j <= tail@.len(),
                tail@ == dense_ops(dims),
                at.countable(dims.hidden),
                names.ffn is Dense,
                check == (|op: LayerOp| self.op_fault(*names, dims, at, k_len, v_len, op)),
                first_fault(attention_ops(dims, at), check, 0) is None,
                first_fault(tail@, check, 0) == first_fault(tail@, check, j as int),
                ops@ == attention_ops(dims, at) + tail@.take(j as int),
            decreases tail@.len() - j,
        {
            assert(check(tail@[j as int]) == self.op_fault(
                *names,
                dims,
                at,
                k_len,
                v_len,
                tail@[j as int],
            ));
            self.check_op(names, dims, at, k_len, v_len, tail[j])?;
            ops.push(tail[j]);
            j += 1;
            assert(ops@ =~= attention_ops(dims, at) + tail@.take(j as int));
        }
        assert(tail@.take(j as int) =~= tail@);
        proof {
            self.lemma_reaches_rope(*names, dims, at, k_len, v_len);
        }
        Ok(ops)
    }

    fn check_layers(
        &self,
        names: &Vec<LayerTensorNames>,
        dims: ModelDims,
        at: LayerPos,
        cache_len: usize,
    ) -> (r: Ds4Result<()>)
        requires
            at.countable(dims.hidden),
            attention_countable(at.prefix_len, dims.n_heads, dims.head_dim),
            at.cache_pos < at.prefix_len,
            self.layers_run(names@, dims),
        ensures
            match self.layers_fault(names@, dims, at, cache_len, 0) {
                Some(f) => r matches Err(e) && e.says(f),
                None => r is Ok,
            },
    {
        let mut i: usize = 0;
        while i < names.len()
            invariant
                i <= names@.len(),
                at.countable(dims.hidden),
                attention_countable(at.prefix_len, dims.n_heads, dims.head_dim),
                at.cache_pos < at.prefix_len,
                self.layers_run(names@, dims),
                i > 0 ==> rotatable(dims),
                self.layers_fault(names@, dims, at, cache_len, 0) == self.layers_fault(
                    names@,
                    dims,
                    at,
                    cache_len,
                    i as int,
                ),
            decreases names@.len() - i,
        {
            proof {
                let h = dims.hidden;
                assert(at.cache_pos * h + h <= at.prefix_len * h) by (nonlinear_arith)
                    requires
                        at.cache_pos < at.prefix_len,
                ;
            }
            self.forward_layer_at(&names[i], dims, at, cache_len, cache_len)?;
            proof {
                self.lemma_reaches_rope(names@[i as int], dims, at, cache_len, cache_len);
            }
            i += 1;
        }
        Ok(())
    }

    /// Lays out a layer slice. `names` are the tensors of the layers of the slice, in order. The
    /// calls run on the hidden state of each token in turn, in a cache of as many rows as there
    /// are tokens.
    pub fn compute_layer_slice(
        &self,
        names: &Vec<LayerTensorNames>,
        token_ids: usize,
        pos0: usize,
        layer_start: usize,
        layer_end: usize,
        input_len: usize,
        output_len: usize,
    ) -> (r: Ds4Result<Vec<LayerCall>>)
        requires
            self.countable(),
            self.slice_fault(token_ids as nat, layer_start, layer_end, input_len, output_len)
                is None ==> ({
                let dims = self.model_dims();
                &&& dims.hidden > 0
                &&& slice_names(names@, layer_start, layer_end, self.stated_dims is Some)
                &&& layer_start < layer_end && input_len > 0 ==> dims.n_heads * dims.head_dim
                    <= usize::MAX && pos0 + input_len / dims.hidden <= usize::MAX + 1
                    && self.layers_run(names@, dims)
            }),
        ensures
            match self.slice_fault(token_ids as nat, layer_start, layer_end, input_len, output_len) {
                Some(f) => r matches Err(e) && e.says(f),
                None => {
                    let dims = self.model_dims();
                    let n_tokens = input_len / dims.hidden;
                    if layer_start == layer_end || n_tokens == 0 {
                        r matches Ok(calls) && calls@.len() == 0
                    } else {
                        match self.layers_fault(
                            names@,
                            dims,
                            LayerPos { rope_pos: pos0, cache_pos: 0, prefix_len: 1 },
                            input_len,
                            0,
                        ) {
                            Some(f) => r matches Err(e) && e.says(f),
                            None => r matches Ok(calls) && calls@ == slice_calls(
                                pos0,
                                layer_start,
                                layer_end,
                                n_tokens,
                            ),
                        }
                    }
                },
            },
    {
        let dims: ModelDims = self.dims()?;
        if layer_end < layer_start {
            return Err(
                sized_error(
                    Ds4ErrorKind::InvalidArgument,
                    "invalid layer slice ",
                    layer_start,
                    "..",
                    layer_end,
                ),
            );
        }
        if dims.layers < layer_end {
            let mut m: String = String::from_str("layer slice ");
            push_dec(&mut m, layer_start as u64);
            m.append("..");
            push_dec(&mut m, layer_end as u64);
            m.append(" exceeds model layer count ");
            push_dec(&mut m, dims.layers as u64);
            return Err(Ds4Error::new(Ds4ErrorKind::InvalidArgument, m));
        }
        let n_tokens: usize = check_slice_buffers(token_ids, dims.hidden, input_len, output_len)?;
        if layer_start == layer_end || n_tokens == 0 {
            return Ok(Vec::new());
        }
        let at = LayerPos { rope_pos: pos0, cache_pos: 0, prefix_len: 1 };
        assert(at.countable(dims.hidden)) by {
            assert(0 * dims.hidden == 0 && 1 * dims.hidden == dims.hidden) by (nonlinear_arith);
        }
        assert(attention_countable(1, dims.n_heads, dims.head_dim)) by {
            assert(1 * dims.n_heads == dims.n_heads) by (nonlinear_arith);
        }
        self.check_layers(names, dims, at, input_len)?;
        Ok(layer_calls(pos0, layer_start, layer_end, n_tokens))
    }

    fn check_output_norm(&self, hidden: usize) -> (r: Ds4Result<bool>)
        ensures
            match self.output_norm_fault(hidden) {
                Some(f) => r matches Err(e) && e.says(f),
                None => r == Ok::<bool, Ds4Error>(
                    self.tensors@.contains_key("output_norm.weight"@),
                ),
            },
    {
        match self.tensors.get("output_norm.weight") {
            None => Ok(false),
            Some(TensorData::F32(weight)) => {
                if weight.len() != hidden {
                    return Err(
                        sized_error(
                            Ds4ErrorKind::Model,
                            "output_norm.weight length ",
                            weight.len(),
                            " != hidden ",
                            hidden,
                        ),
                    );
                }
                Ok(true)
            },
            Some(_) => Err(
                Ds4Error::new(
                    Ds4ErrorKind::NotImplemented,
                    String::from_str("output_norm.weight is not available as f32"),
                ),
            ),
        }
    }

    /// Lays out the output head over the hidden states of `n_tokens` tokens.
    pub fn compute_output_head_from_hc(
        &self,
        hidden_len: usize,
        n_tokens: usize,
        logits_len: usize,
    ) -> (r: Ds4Result<HeadPlan>)
        requires
            self.countable(),
            self.model_fault() is None ==> run_countable(self.model_dims(), n_tokens as nat),
        ensures
            match self.head_fault(hidden_len, n_tokens, logits_len) {
                Some(f) => r matches Err(e) && e.says(f),
                None => {
                    let dims = self.model_dims();
                    &&& r matches Ok(p)
                    &&& n_tokens > 0 ==> p.norm == self.tensors@.contains_key(
                        "output_norm.weight"@,
                    )
                    &&& p.calls@ == head_calls(dims, n_tokens as nat)
                },
            },
    {
        let dims: ModelDims = self.dims()?;
        if n_tokens == 0 {
            if hidden_len == 0 {
                let none: Vec<HeadCall> = Vec::new();
                assert(none@ =~= head_calls(dims, 0));
                return Ok(HeadPlan { norm: false, calls: none });
            }
            return Err(
                Ds4Error::new(
                    Ds4ErrorKind::InvalidArgument,
                    String::from_str("n_tokens is zero but hidden_hc is not empty"),
                ),
            );
        }
        let hidden_needed: usize = n_tokens * dims.hidden;
        if hidden_len < hidden_needed {
            return Err(
                sized_error(
                    Ds4ErrorKind::InvalidArgument,
                    "hidden_hc too small: ",
                    hidden_len,
                    " < ",
                    hidden_needed,
                ),
            );
        }
        let logits_needed: usize = n_tokens * dims.vocab;
        if logits_len < logits_needed {
            return Err(
                sized_error(
                    Ds4ErrorKind::InvalidArgument,
                    "logit buffer too small: ",
                    logits_len,
                    " < ",
                    logits_needed,
                ),
            );
        }
        let norm: bool = self.check_output_norm(dims.hidden)?;
        self.check_matvec("output.weight", dims.hidden, dims.vocab)?;
        Ok(HeadPlan { norm, calls: list_head_calls(dims, n_tokens) })
    }

    /// The calls of the layers for a sequence of tokens: all layers for each token in turn, on its
    /// embedding, in a cache of as many rows as there are tokens.
    pub fn sequence_calls(&self, n_tokens: usize) -> (r: Vec<LayerCall>)
        requires
            self.countable(),
            self.model_fault() is None,
        ensures
            r@ == slice_calls(0, 0, self.model_dims().layers, n_tokens),
    {
        match self.dims() {
            Ok(dims) => layer_calls(0, 0, dims.layers, n_tokens),
            Err(_) => Vec::new(),
        }
    }

    /// Lays out the evaluation of a sequence: the embedding of each token. The calls of
    /// `sequence_calls` run on them, and the output head on what the last one comes to. `names`
    /// are the tensors of all layers.
    pub fn compute_sequence_logits(
        &self,
        names: &Vec<LayerTensorNames>,
        tokens: &[u32],
        out_len: usize,
    ) -> (r: Ds4Result<Vec<Vec<u32>>>)
        requires
            self.countable(),
            self.model_fault() is None ==> ({
                let dims = self.model_dims();
                &&& dims.vocab * dims.hidden <= usize::MAX
                &&& tokens@.len() * dims.hidden <= usize::MAX
                &&& dims.n_heads * dims.head_dim <= usize::MAX
                &&& slice_names(names@, 0, dims.layers, self.stated_dims is Some)
                &&& tokens@.len() > 0 && out_len >= dims.vocab && self.embedding_fault(
                    tokens@[0],
                    dims,
                ) is None ==> self.layers_run(names@, dims)
            }),
        ensures
            match self.sequence_fault(names@, tokens@, out_len) {
                Some(f) => r matches Err(e) && e.says(f),
                None => {
                    &&& r matches Ok(rows)
                    &&& rows@.len() == tokens@.len()
                    &&& forall|i: int|
                        0 <= i < rows@.len() ==> (#[trigger] rows@[i])@ == self.embedding_row(
                            tokens@[i],
                            self.model_dims().hidden,
                        )
                },
            },
    {
        if tokens.len() == 0 {
            return Err(
                Ds4Error::new(
                    Ds4ErrorKind::InvalidArgument,
                    String::from_str("token sequence is empty"),
                ),
            );
        }
        let dims: ModelDims = self.dims()?;
        if out_len < dims.vocab {
            return Err(
                sized_error(
                    Ds4ErrorKind::InvalidArgument,
                    "logit buffer too small: ",
                    out_len,
                    " < ",
                    dims.vocab,
                ),
            );
        }
        let first: Vec<u32> = self.embedding(tokens[0], dims)?;
        let at = LayerPos { rope_pos: 0, cache_pos: 0, prefix_len: 1 };
        assert(at.countable(dims.hidden)) by {
            assert(0 * dims.hidden == 0 && 1 * dims.hidden == dims.hidden) by (nonlinear_arith);
        }
        assert(attention_countable(1, dims.n_heads, dims.head_dim)) by {
            assert(1 * dims.n_heads == dims.n_heads) by (nonlinear_arith);
        }
        proof {
            assert(1 * dims.hidden <= tokens@.len() * dims.hidden) by (nonlinear_arith)
                requires
                    tokens@.len() >= 1,
            ;
        }
        self.check_layers(names, dims, at, tokens.len() * dims.hidden)?;
        self.compute_output_head_from_hc(dims.hidden, 1, dims.vocab)?;
        let mut rows: Vec<Vec<u32>> = Vec::new();
        rows.push(first);
        let mut i: usize = 1;
        while i < tokens.len()
            invariant
                1 <= i <= tokens@.len(),
                dims == self.model_dims(),
                dims.vocab * dims.hidden <= usize::MAX,
                rows@.len() == i,
                self.tokens_fault(tokens@, dims, 1) == self.tokens_fault(tokens@, dims, i as int),
                self.sequence_fault(names@, tokens@, out_len) == self.tokens_fault(
                    tokens@,
                    dims,
                    1,
                ),
                forall|j: int|
                    0 <= j < i ==> (#[trigger] rows@[j])@ == self.embedding_row(
                        tokens@[j],
                        dims.hidden,
                    ),
            decreases tokens@.len() - i,
        {
            let row: Vec<u32> = self.embedding(tokens[i], dims)?;
            rows.push(row);
            i += 1;
        }
        Ok(rows)
    }
}

/// The calls of the output head: for each token its row of the hidden state and of the logits.
pub open spec fn head_calls(dims: ModelDims, n_tokens: nat) -> Seq<HeadCall> {
    Seq::new(
        n_tokens,
        |t: int|
            HeadCall {
                hidden_start: (t * dims.hidden) as usize,
                hidden_end: (t * dims.hidden + dims.hidden) as usize,
                logits_start: (t * dims.vocab) as usize,
                logits_end: (t * dims.vocab + dims.vocab) as usize,
            },
    )
}

pub(crate) fn list_head_calls(dims: ModelDims, n_tokens: usize) -> (r: Vec<HeadCall>)
    requires
        run_countable(dims, n_tokens as nat),
    ensures
        r@ == head_calls(dims, n_tokens as nat),
{
    let mut calls: Vec<HeadCall> = Vec::new();
    let mut t: usize = 0;
    while t < n_tokens
        invariant
            t <= n_tokens,
            run_countable(dims, n_tokens as nat),
            calls@ == head_calls(dims, t as nat),
        decreases n_tokens - t,
    {
        assert(t * dims.hidden + dims.hidden <= n_tokens * dims.hidden && t * dims.vocab
            + dims.vocab <= n_tokens * dims.vocab && 0 <= t * dims.hidden && 0 <= t * dims.vocab)
            by (nonlinear_arith)
            requires
                t < n_tokens,
        ;
        let hidden_start: usize = t * dims.hidden;
        let logits_start: usize = t * dims.vocab;
        calls.push(
            HeadCall {
                hidden_start,
                hidden_end: hidden_start + dims.hidden,
                logits_start,
                logits_end: logits_start + dims.vocab,
            },
        );
        t += 1;
        assert(calls@ =~= head_calls(dims, t as nat));
    }
    calls
}

// ---- Loading ----

/// A tensor in memory holds this: in a format that is not read, the bytes as they are; otherwise
/// the elements as single precision. Those of a format of blocks are the elements of the blocks,
/// up to the number of elements of the tensor.
pub open spec fn is_tensor_data(
    t: TensorData,
    desc: TensorDescriptor,
    bytes: Seq<u8>,
    blocks: Seq<Vec<u32>>,
) -> bool {
    let n = element_count(desc.dims@);
    if desc.dtype == GgufDType::Other {
        t matches TensorData::Unknown(v) && v@ == bytes
    } else {
        &&& t matches TensorData::F32(v)
        &&& v@.len() == n
        &&& desc.dtype == GgufDType::F32 ==> v@ == words_of(bytes.subrange(0, 4 * n as int))
        &&& desc.dtype == GgufDType::F16 ==> forall|i: int|
            0 <= i < v@.len() ==> same_number(u16_at(bytes, 2 * i), #[trigger] v@[i])
        &&& layout_of(desc.dtype) is Some ==> v@ == first_elements(joined(blocks), n)
    }
}

/// What stands against reading the bytes of a tensor in its own format.
pub open spec fn data_fault(desc: TensorDescriptor, len: nat) -> Option<Fault> {
    if desc.dtype == GgufDType::Other {
        None
    } else {
        tensor_fault(desc, len, desc.dtype)
    }
}

/// The tensor in memory, from its bytes and, in a format of blocks, from the elements of each
/// block.
pub fn tensor_data(desc: &TensorDescriptor, bytes: &[u8], blocks: &[Vec<u32>]) -> (r: Ds4Result<
    TensorData,
>)
    requires
        desc.dtype != GgufDType::Other ==> tensor_countable(*desc),
        layout_of(desc.dtype) is Some && data_fault(*desc, bytes@.len()) is None ==> blocks_full(
            blocks@,
            element_count(desc.dims@),
            desc.dtype,
        ),
    ensures
        match data_fault(*desc, bytes@.len()) {
            Some(f) => r matches Err(e) && e.says(f),
            None => r matches Ok(t) && is_tensor_data(t, *desc, bytes@, blocks@),
        },
        (r matches Ok(t) && t is Unknown) <==> desc.dtype == GgufDType::Other,
{
    match desc.dtype {
        GgufDType::Other => {
            let all: Vec<u8> = copy_bytes(bytes, 0, bytes.len());
            assert(all@ =~= bytes@);
            Ok(TensorData::Unknown(all))
        },
        GgufDType::F32 => {
            let v: Vec<u32> = decode_f32(desc, bytes)?;
            Ok(TensorData::F32(v))
        },
        GgufDType::F16 => {
            let v: Vec<u32> = decode_f16(desc, bytes)?;
            Ok(TensorData::F32(v))
        },
        _ => {
            let (n, _count): (usize, usize) = quant_shape(desc, bytes.len(), desc.dtype)?;
            proof {
                law_blocks_full(blocks@, n as nat, desc.dtype);
            }
            Ok(TensorData::F32(join_blocks(blocks, n)))
        },
    }
}

/// The fault of a tensor with more elements than an index can count.
pub open spec fn uncountable(name: Seq<char>) -> Option<Fault> {
    fault(Ds4ErrorKind::Model, "tensor "@ + quoted(name) + ": element count overflows usize"@)
}

/// What stands against loading a tensor.
pub open spec fn item_fault(item: LoadedTensor) -> Option<Fault> {
    if element_count(item.descriptor.dims@) > usize::MAX {
        uncountable(item.descriptor.name@)
    } else {
        match item.bytes {
            Err(e) => Some(said(e)),
            Ok(b) => data_fault(item.descriptor, b@.len()),
        }
    }
}

/// The first fault among tensors, from `from` on.
pub open spec fn load_fault(items: Seq<LoadedTensor>, from: int) -> Option<Fault>
    decreases items.len() - from,
{
    if from < 0 || from >= items.len() {
        None
    } else {
        match item_fault(items[from]) {
            Some(f) => Some(f),
            None => load_fault(items, from + 1),
        }
    }
}

/// The bytes of a tensor whose elements can be counted can be counted too, and the blocks of one
/// that can be loaded are all there.
pub open spec fn loadable(item: LoadedTensor) -> bool {
    let d = item.descriptor;
    let n = element_count(d.dims@);
    &&& n <= usize::MAX ==> bytes_needed(d.dtype, n) <= usize::MAX
    &&& layout_of(d.dtype) is Some && item_fault(item) is None ==> blocks_full(
        item.blocks@,
        n,
        d.dtype,
    )
}

/// The place of the last tensor of this name.
pub open spec fn last_named(items: Seq<LoadedTensor>, name: Seq<char>) -> Option<int>
    decreases items.len(),
{
    if items.len() == 0 {
        None
    } else if items.last().descriptor.name@ == name {
        Some(items.len() - 1)
    } else {
        last_named(items.drop_last(), name)
    }
}

/// The place is that of a tensor of this name.
pub proof fn law_last_named(items: Seq<LoadedTensor>, name: Seq<char>)
    ensures
        match last_named(items, name) {
            Some(i) => {
                &&& 0 <= i < items.len()
                &&& items[i].descriptor.name@ == name
                &&& forall|k: int| i < k < items.len() ==> items[k].descriptor.name@ != name
            },
            None => forall|k: int| 0 <= k < items.len() ==> items[k].descriptor.name@ != name,
        },
    decreases items.len(),
{
    if items.len() > 0 && items.last().descriptor.name@ != name {
        let less = items.drop_last();
        law_last_named(less, name);
        assert forall|k: int| 0 <= k < less.len() implies less[k] == items[k] by {}
    }
}

/// The table holds under a name the last tensor of that name, and nothing where there is none.
pub open spec fn holds_tensor(
    t: Map<Seq<char>, TensorData>,
    items: Seq<LoadedTensor>,
    name: Seq<char>,
) -> bool {
    match last_named(items, name) {
        Some(i) => t.contains_key(name) && is_tensor_data(
            t[name],
            items[i].descriptor,
            items[i].bytes->Ok_0@,
            items[i].blocks@,
        ),
        None => !t.contains_key(name),
    }
}

/// The table holds the tensors under their names, later ones over earlier ones.
pub open spec fn holds_tensors(t: Map<Seq<char>, TensorData>, items: Seq<LoadedTensor>) -> bool {
    forall|name: Seq<char>| #[trigger] holds_tensor(t, items, name)
}

proof fn lemma_holds_next(
    t: Map<Seq<char>, TensorData>,
    items: Seq<LoadedTensor>,
    n: int,
    data: TensorData,
)
    requires
        0 <= n < items.len(),
        holds_tensors(t, items.take(n)),
        is_tensor_data(
            data,
            items[n].descriptor,
            items[n].bytes->Ok_0@,
            items[n].blocks@,
        ),
    ensures
        holds_tensors(t.insert(items[n].descriptor.name@, data), items.take(n + 1)),
{
    let next = items.take(n + 1);
    let less = items.take(n);
    let u = t.insert(items[n].descriptor.name@, data);
    assert(next.drop_last() =~= less);
    assert(next.last() == items[n]);
    assert forall|name: Seq<char>| #[trigger] holds_tensor(u, next, name) by {
        law_last_named(less, name);
        assert(holds_tensor(t, less, name));
    }
}

/// The descriptors, in order.
pub open spec fn loaded_descriptors(items: Seq<LoadedTensor>) -> Seq<TensorDescriptor> {
    Seq::new(items.len(), |i: int| items[i].descriptor)
}

/// The number of elements of the tensors in a format that is read.
pub open spec fn loaded_elements(items: Seq<LoadedTensor>) -> nat
    decreases items.len(),
{
    if items.len() == 0 {
        0
    } else {
        let d = items.last().descriptor;
        loaded_elements(items.drop_last()) + if d.dtype == GgufDType::Other {
            0
        } else {
            element_count(d.dims@)
        }
    }
}

/// Handle of the CPU backend.
#[derive(Debug, Clone, Copy, PartialEq, Eq, Structural)]
pub struct CpuBackend {}

/// The memory that a context takes at least.
pub open spec fn cpu_memory(ctx_size: usize, prefill_chunk: usize) -> nat {
    (ctx_size * 7168 * 2 * 61 + 129280 * 4 + prefill_chunk * 7168 * 4) as nat
}

/// A larger context or prefill never takes less memory.
pub proof fn law_cpu_memory_grows(a: usize, b: usize, p: usize, q: usize)
    requires
        a <= b,
        p <= q,
    ensures
        0 < cpu_memory(a, p) <= cpu_memory(b, q),
{
}

impl CpuBackend {
    /// A handle.
    pub fn new() -> (b: Self) {
        CpuBackend {  }
    }

    /// The name of the backend.
    pub fn name(&self) -> (r: &'static str)
        ensures
            r@ == "cpu"@,
    {
        "cpu"
    }

    /// The memory that a context takes at least.
    pub fn memory_estimate(ctx_size: usize, prefill_chunk: usize) -> (n: u64)
        requires
            cpu_memory(ctx_size, prefill_chunk) <= u64::MAX,
        ensures
            n == cpu_memory(ctx_size, prefill_chunk),
    {
        let kv: u64 = ctx_size as u64 * 7168 * 2 * 61;
        let vocab: u64 = 129280 * 4;
        let prefill: u64 = prefill_chunk as u64 * 7168 * 4;
        kv + vocab + prefill
    }

    /// Builds a model from its tensors. `dims` are the dimensions that the model file states. The
    /// first thing that could not be read is reported.
    pub fn load_model_from_gguf(
        metadata: GgufMetadata,
        dims: Ds4Result<ModelDims>,
        items: Vec<LoadedTensor>,
    ) -> (r: Ds4Result<CpuModel>)
        requires
            forall|i: int| 0 <= i < items@.len() ==> loadable(#[trigger] items@[i]),
            dims is Ok && load_fault(items@, 0) is None ==> loaded_elements(items@) <= usize::MAX,
        ensures
            match dims {
                Err(e) => r == Err::<CpuModel, Ds4Error>(e),
                Ok(d) => match load_fault(items@, 0) {
                    Some(f) => r matches Err(e) && e.says(f),
                    None => {
                        &&& r matches Ok(m)
                        &&& m.metadata == metadata
                        &&& m.stated_dims == Some(d)
                        &&& holds_tensors(m.tensors@, items@)
                        &&& m.descriptors@ == loaded_descriptors(items@)
                        &&& m.elements == loaded_elements(items@)
                    },
                },
            },
    {
        let stated: ModelDims = match dims {
            Ok(d) => d,
            Err(e) => return Err(e),
        };
        let mut m = CpuModel::new();
        m.metadata = metadata;
        m.stated_dims = Some(stated);
        let ghost all = items@;
        assert(all.len() == items.len());
        assert(all.skip(0) =~= all);
        assert(all.take(0) =~= Seq::<LoadedTensor>::empty());
        assert(m.descriptors@ =~= loaded_descriptors(all.take(0)));
        let mut rest: Vec<LoadedTensor> = items;
        let mut i: usize = 0;
        let mut total: u128 = 0;
        while rest.len() > 0
            invariant
                i <= all.len(),
                all == items@,
                dims == Ok::<ModelDims, Ds4Error>(stated),
                rest@ == all.skip(i as int),
                all.len() <= usize::MAX,
                forall|k: int| 0 <= k < all.len() ==> loadable(#[trigger] all[k]),
                load_fault(all, 0) == load_fault(all, i as int),
                m.metadata == metadata,
                m.stated_dims == Some(stated),
                holds_tensors(m.tensors@, all.take(i as int)),
                m.descriptors@ == loaded_descriptors(all.take(i as int)),
                total == loaded_elements(all.take(i as int)),
                total <= i * usize::MAX,
            decreases rest@.len(),
        {
            let item: LoadedTensor = rest.remove(0);
            proof {
                assert(item == all[i as int]);
                assert(loadable(all[i as int]));
                assert(rest@ =~= all.skip(i + 1));
                let next = all.take(i + 1);
                assert(next.drop_last() =~= all.take(i as int));
                assert(next.last() == item);
                assert(i * usize::MAX + usize::MAX == (i + 1) * usize::MAX) by (nonlinear_arith);
                assert((i + 1) * usize::MAX <= u64::MAX * u64::MAX) by (nonlinear_arith)
                    requires
                        0 <= i < u64::MAX,
                        0 <= usize::MAX <= u64::MAX,
                ;
            }
            let n: u64 = match count_up_to(item.descriptor.dims.as_slice(), usize::MAX as u64) {
                Some(n) => n,
                None => {
                    let mut text: String = String::from_str("tensor ");
                    text.append(quote(item.descriptor.name.as_str()).as_str());
                    text.append(": element count overflows usize");
                    return Err(Ds4Error::new(Ds4ErrorKind::Model, text));
                },
            };
            let bytes: Vec<u8> = match item.bytes {
                Ok(b) => b,
                Err(e) => return Err(e),
            };
            let data: TensorData = tensor_data(
                &item.descriptor,
                bytes.as_slice(),
                item.blocks.as_slice(),
            )?;
            proof {
                lemma_holds_next(m.tensors@, all, i as int, data);
            }
            if item.descriptor.dtype != GgufDType::Other {
                total = total + n as u128;
            }
            let name: String = String::from_str(item.descriptor.name.as_str());
            m.tensors.insert(name, data);
            m.descriptors.push(item.descriptor);
            i += 1;
            assert(m.descriptors@ =~= loaded_descriptors(all.take(i as int)));
        }
        assert(all.take(i as int) =~= all);
        m.elements = total as usize;
        Ok(m)
    }
}

// ---- Laws of evaluation ----

/// The embeddings of the tokens lie in the table one after the other, in the order of the tokens:
/// the first one at its start, each next one directly behind.
pub proof fn law_embeddings_adjoin(m: CpuModel, dims: ModelDims, token: u32)
    requires
        m.embedding_fault(token, dims) is None,
    ensures
        ({
            let table = m.f32_values("token_embd.weight"@);
            let row = m.embedding_row(token, dims.hidden);
            &&& token < dims.vocab
            &&& row.len() == dims.hidden
            &&& m.embedding_row(0, dims.hidden) == table.take(dims.hidden as int)
            &&& token > 0 ==> m.embedding_row((token - 1) as u32, dims.hidden) + row
                == table.subrange(
                token * dims.hidden - dims.hidden,
                token * dims.hidden + dims.hidden,
            )
        }),
{
    let h = dims.hidden as int;
    let t = token as int;
    let table = m.f32_values("token_embd.weight"@);
    assert(0 <= t * h && t * h + h <= dims.vocab * h) by (nonlinear_arith)
        requires
            0 <= t < dims.vocab,
            h >= 0,
    ;
    assert(0 * h == 0) by (nonlinear_arith);
    assert(m.embedding_row(0, dims.hidden) =~= table.take(h));
    if token > 0 {
        assert((t - 1) * h == t * h - h) by (nonlinear_arith);
        assert(0 <= t * h - h) by (nonlinear_arith)
            requires
                t >= 1,
                h >= 0,
        ;
        assert(m.embedding_row((token - 1) as u32, dims.hidden) + m.embedding_row(
            token,
            dims.hidden,
        ) =~= table.subrange(t * h - h, t * h + h));
    }
}

/// The output head takes the tokens in order: each reads one row of the hidden state and writes one
/// row of the logits, directly behind those of the token before it.
pub proof fn law_head_rows_adjoin(dims: ModelDims, n_tokens: nat, t: int)
    requires
        run_countable(dims, n_tokens),
        0 <= t < n_tokens,
    ensures
        ({
            let calls = head_calls(dims, n_tokens);
            &&& calls.len() == n_tokens
            &&& calls[0].hidden_start == 0 && calls[0].logits_start == 0
            &&& calls[t].hidden_end - calls[t].hidden_start == dims.hidden
            &&& calls[t].logits_end - calls[t].logits_start == dims.vocab
            &&& t + 1 < n_tokens ==> calls[t + 1].hidden_start == calls[t].hidden_end
                && calls[t + 1].logits_start == calls[t].logits_end
        }),
{
    let h = dims.hidden as int;
    let v = dims.vocab as int;
    assert(0 * h == 0 && 0 * v == 0 && (t + 1) * h == t * h + h && (t + 1) * v == t * v + v)
        by (nonlinear_arith);
    assert(0 <= t * h && t * h + h <= n_tokens * h && 0 <= t * v && t * v + v <= n_tokens * v)
        by (nonlinear_arith)
        requires
            0 <= t < n_tokens,
            h >= 0,
            v >= 0,
    ;
    assert(t + 1 < n_tokens ==> (t + 1) * h + h <= n_tokens * h && (t + 1) * v + v <= n_tokens * v)
        by (nonlinear_arith)
        requires
            0 <= t < n_tokens,
            h >= 0,
            v >= 0,
    ;
}

/// A weight can be multiplied with exactly where it is a matrix with as many rows as the vector has
/// elements and as many columns as the result, and all of its elements are there.
pub proof fn law_matvec_fits(m: CpuModel, name: Seq<char>, d: TensorDescriptor, input: usize, out: usize)
    requires
        descriptor_of(m.descriptors@, name) == Some(d),
    ensures
        m.matvec_fault(name, input, out) is None <==> {
            &&& d.dims@.len() == 2
            &&& d.dims@[0] == input
            &&& d.dims@[1] == out
            &&& m.tensors@.contains_key(name)
            &&& m.tensors@[name] matches TensorData::F32(v)
            &&& v@.len() >= input * out
        },
{
}

/// What a load keeps of a tensor is what a product or an embedding then reads of it: the elements
/// that its format gives, as many as its dimensions say.
pub proof fn law_loaded_is_read(m: CpuModel, items: Seq<LoadedTensor>, i: int)
    requires
        holds_tensors(m.tensors@, items),
        0 <= i < items.len(),
        forall|k: int|
            i < k < items.len() ==> (#[trigger] items[k]).descriptor.name@
                != items[i].descriptor.name@,
        items[i].descriptor.dtype == GgufDType::F32,
        items[i].bytes is Ok,
    ensures
        ({
            let d = items[i].descriptor;
            let n = element_count(d.dims@);
            &&& m.f32_fault(d.name@) is None
            &&& m.f32_values(d.name@) == words_of(
                items[i].bytes->Ok_0@.subrange(0, 4 * n as int),
            )
            &&& m.f32_values(d.name@).len() == n
        }),
{
    let name = items[i].descriptor.name@;
    law_last_named(items, name);
    assert(holds_tensor(m.tensors@, items, name));
    assert(last_named(items, name) == Some(i)) by {
        let l = last_named(items, name).unwrap();
        if l < i {
            assert(items[i].descriptor.name@ != name);
        } else if l > i {
            assert(items[l].descriptor.name@ != name);
        }
    }
}

/// What each position adds to the memory of a context: two rows of 7168 bytes in each of 61 layers
/// for a position of the context, and a row of 7168 single-precision numbers for one of a prefill
/// chunk. Without positions the logits are left: a single-precision number for each of 129280
/// tokens.
pub proof fn law_cpu_memory_per_position(ctx: usize, chunk: usize)
    requires
        ctx < usize::MAX,
        chunk < usize::MAX,
    ensures
        cpu_memory((ctx + 1) as usize, chunk) == cpu_memory(ctx, chunk) + 2 * 7168 * 61,
        cpu_memory(ctx, (chunk + 1) as usize) == cpu_memory(ctx, chunk) + 4 * 7168,
        cpu_memory(0, 0) == 4 * 129280,
{
}

/// The fault that a load is reported with is that of the first tensor that has one; without a fault
/// every tensor can be counted, was read, and is long enough for its format.
pub proof fn law_load_fault(items: Seq<LoadedTensor>, from: int)
    requires
        0 <= from <= items.len(),
    ensures
        match load_fault(items, from) {
            Some(f) => exists|i: int|
                from <= i < items.len() && item_fault(#[trigger] items[i]) == Some(f) && forall|
                    j: int,
                |
                    from <= j < i ==> item_fault(#[trigger] items[j]) is None,
            None => forall|i: int|
                from <= i < items.len() ==> {
                    &&& element_count((#[trigger] items[i]).descriptor.dims@) <= usize::MAX
                    &&& items[i].bytes is Ok
                    &&& data_fault(items[i].descriptor, items[i].bytes->Ok_0@.len()) is None
                },
        },
    decreases items.len() - from,
{
    if from < items.len() && item_fault(items[from]) is None {
        law_load_fault(items, from + 1);
        if let Some(f) = load_fault(items, from) {
            let i = choose|i: int|
                from + 1 <= i < items.len() && item_fault(#[trigger] items[i]) == Some(f) && forall|
                    j: int,
                |
                    from + 1 <= j < i ==> item_fault(#[trigger] items[j]) is None;
            assert(item_fault(items[i]) == Some(f));
        }
    } else if from < items.len() {
        assert(item_fault(items[from]) == load_fault(items, from));
    }
}

/// The elements of a model are those of its tensors, but for those in a format that is not read.
pub proof fn law_loaded_elements(items: Seq<LoadedTensor>, next: LoadedTensor)
    ensures
        loaded_elements(Seq::<LoadedTensor>::empty()) == 0,
        next.descriptor.dtype != GgufDType::Other ==> loaded_elements(items.push(next))
            == loaded_elements(items) + element_count(next.descriptor.dims@),
        next.descriptor.dtype == GgufDType::Other ==> loaded_elements(items.push(next))
            == loaded_elements(items),
{
    assert(items.push(next).drop_last() =~= items);
}

} // verus!
