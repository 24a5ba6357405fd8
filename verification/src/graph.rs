//! The transformer as the backends run it: dimensions, tensor names, and the order in which a
//! layer's kernels run.
//!
//! The arithmetic of a kernel is the backend's. What is fixed here is which kernels run, on which
//! buffers, with which weights and which sizes.

use vstd::prelude::*;
use vstd::string::StringExecFns;
use vstd::utf8::encode_utf8;

use crate::backend_paged::page_table::overwritten;
use crate::engine::ModelDims;
use crate::gguf::{
    descriptor_of, find_descriptor, infer_layer_count, law_layer_of_name, layer_of_name, layers_shown,
    GgufMetadata, TensorDescriptor,
};
use crate::text::{dec, dec_list, push_dec, push_dec_list};
use crate::types::{fault, Ds4Error, Ds4ErrorKind, Ds4Result, Fault};

verus! {

// ---- Names ----

/// Where the weights of the experts stand.
#[derive(Debug, Clone)]
pub enum ExpertTensorLayout {
    /// One tensor for each expert. A pattern holds `{layer}` and `{expert}`.
    PerExpert { gate_pattern: String, up_pattern: String, down_pattern: String },
    /// One tensor for all experts. A pattern holds `{layer}`.
    Packed { gate: String, up: String, down: String },
}

/// The tensors of a feed-forward block.
#[derive(Debug, Clone)]
pub enum FfnTensorNames {
    Dense { gate: String, up: String, down: String },
    RoutedMoe {
        router: String,
        expert_layout: ExpertTensorLayout,
        shared_gate: Option<String>,
        shared_up: Option<String>,
        shared_down: Option<String>,
    },
}

/// The tensors of a layer.
#[derive(Debug, Clone)]
pub struct LayerTensorNames {
    pub attn_norm: String,
    pub attn_q: String,
    pub attn_k: String,
    pub attn_v: String,
    pub attn_output: String,
    pub ffn_norm: String,
    pub ffn: FfnTensorNames,
}

/// The name of a tensor of a layer.
pub open spec fn layer_name(layer: usize, tail: Seq<char>) -> Seq<char> {
    "blk."@ + dec(layer as nat) + tail
}

/// The names that a dense model gives the tensors of a layer.
pub open spec fn usual_names(names: LayerTensorNames, layer: usize) -> bool {
    &&& names.attn_norm@ == layer_name(layer, ".attn_norm.weight"@)
    &&& names.attn_q@ == layer_name(layer, ".attn_q.weight"@)
    &&& names.attn_k@ == layer_name(layer, ".attn_k.weight"@)
    &&& names.attn_v@ == layer_name(layer, ".attn_v.weight"@)
    &&& names.attn_output@ == layer_name(layer, ".attn_out.weight"@)
    &&& names.ffn_norm@ == layer_name(layer, ".ffn_norm.weight"@)
    &&& names.ffn matches FfnTensorNames::Dense { gate, up, down }
    &&& gate@ == layer_name(layer, ".ffn_gate.weight"@)
    &&& up@ == layer_name(layer, ".ffn_up.weight"@)
    &&& down@ == layer_name(layer, ".ffn_down.weight"@)
}

fn named(layer: usize, tail: &str) -> (r: String)
    ensures
        r@ == layer_name(layer, tail@),
{
    let mut s: String = String::from_str("blk.");
    push_dec(&mut s, layer as u64);
    s.append(tail);
    s
}

/// The names that a dense model gives the tensors of a layer.
pub fn layer_tensor_names(layer: usize) -> (r: LayerTensorNames)
    ensures
        usual_names(r, layer),
{
    LayerTensorNames {
        attn_norm: named(layer, ".attn_norm.weight"),
        attn_q: named(layer, ".attn_q.weight"),
        attn_k: named(layer, ".attn_k.weight"),
        attn_v: named(layer, ".attn_v.weight"),
        attn_output: named(layer, ".attn_out.weight"),
        ffn_norm: named(layer, ".ffn_norm.weight"),
        ffn: FfnTensorNames::Dense {
            gate: named(layer, ".ffn_gate.weight"),
            up: named(layer, ".ffn_up.weight"),
            down: named(layer, ".ffn_down.weight"),
        },
    }
}

/// The names are those that a dense model gives the tensors of the layers of a slice, in order.
pub open spec fn usual_slice_names(
    names: Seq<LayerTensorNames>,
    layer_start: usize,
    layer_end: usize,
) -> bool {
    &&& names.len() == layer_end - layer_start
    &&& forall|i: int|
        0 <= i < names.len() ==> usual_names(#[trigger] names[i], (layer_start + i) as usize)
}

/// The names can be those of the layers of a slice: one set for each layer, and the usual ones
/// unless the model comes with names of its own.
pub open spec fn slice_names(
    names: Seq<LayerTensorNames>,
    layer_start: usize,
    layer_end: usize,
    own_names: bool,
) -> bool {
    &&& names.len() == layer_end - layer_start
    &&& !own_names ==> usual_slice_names(names, layer_start, layer_end)
}

/// The names that a dense model gives the tensors of the layers of a slice, in order.
pub fn slice_tensor_names(layer_start: usize, layer_end: usize) -> (r: Vec<LayerTensorNames>)
    requires
        layer_start <= layer_end,
    ensures
        usual_slice_names(r@, layer_start, layer_end),
{
    let mut v: Vec<LayerTensorNames> = Vec::new();
    let mut layer: usize = layer_start;
    while layer < layer_end
        invariant
            layer_start <= layer <= layer_end,
            v@.len() == layer - layer_start,
            forall|i: int|
                0 <= i < v@.len() ==> usual_names(#[trigger] v@[i], (layer_start + i) as usize),
        decreases layer_end - layer,
    {
        v.push(layer_tensor_names(layer));
        layer += 1;
    }
    v
}

/// How the feed-forward blocks of a model are built.
#[derive(Debug, Clone, Copy, PartialEq, Eq, Structural)]
pub enum TransformerBlockKind {
    Dense,
    RoutedMoe,
}

/// The experts of a model.
#[derive(Debug, Clone, Copy, PartialEq, Eq, Structural)]
pub struct MoeSpec {
    pub experts: usize,
    pub active_experts: usize,
}

/// What a model file states of the model. Single-precision numbers are bit patterns.
#[derive(Debug)]
pub struct ModelSpec {
    pub dims: ModelDims,
    pub block_kind: TransformerBlockKind,
    pub moe: Option<MoeSpec>,
    pub token_embedding: String,
    pub output_norm: Option<String>,
    pub output: String,
    pub rms_norm_epsilon: u32,
    pub rope_freq_base: u32,
}

// ---- Dimensions ----

/// The fault of a tensor that is not there.
pub open spec fn missing_tensor(name: Seq<char>) -> Option<Fault> {
    fault(Ds4ErrorKind::Model, "missing tensor "@ + name)
}

/// The fault of a tensor with other than two dimensions.
pub open spec fn bad_shape(name: Seq<char>, dims: Seq<u32>) -> Option<Fault> {
    fault(Ds4ErrorKind::Model, "invalid "@ + name + " shape "@ + dec_list(dims))
}

pub(crate) fn missing_tensor_error(name: &str) -> (e: Ds4Error)
    ensures
        missing_tensor(name@) matches Some(f) && e.says(f),
{
    let mut m: String = String::from_str("missing tensor ");
    m.append(name);
    Ds4Error::new(Ds4ErrorKind::Model, m)
}

pub(crate) fn bad_shape_error(name: &str, dims: &Vec<u32>) -> (e: Ds4Error)
    ensures
        bad_shape(name@, dims@) matches Some(f) && e.says(f),
{
    let mut m: String = String::from_str("invalid ");
    m.append(name);
    m.append(" shape ");
    push_dec_list(&mut m, dims.as_slice());
    Ds4Error::new(Ds4ErrorKind::Model, m)
}

/// The dimensions that the token embedding, the metadata and the first gate give.
pub open spec fn dims_from(
    tensors: Seq<TensorDescriptor>,
    metadata: GgufMetadata,
    embedding: Seq<u32>,
) -> ModelDims {
    let hidden = embedding[1] as usize;
    let n_heads = match metadata.head_count {
        Some(v) => v as usize,
        None => 1,
    };
    ModelDims {
        vocab: embedding[0] as usize,
        hidden,
        layers: match metadata.layer_count {
            Some(v) => v as usize,
            None => layers_shown(tensors) as usize,
        },
        n_heads,
        head_dim: match metadata.head_dim {
            Some(v) => v as usize,
            None => hidden / n_heads,
        },
        ffn: match descriptor_of(tensors, "blk.0.ffn_gate.weight"@) {
            Some(d) => if d.dims@.len() > 1 {
                d.dims@[1] as usize
            } else {
                (hidden * 4) as usize
            },
            None => (hidden * 4) as usize,
        },
    }
}

/// What stands against the dimensions of a model. `even` asks for an even head size.
pub open spec fn dims_fault(
    tensors: Seq<TensorDescriptor>,
    metadata: GgufMetadata,
    even: bool,
) -> Option<Fault> {
    match descriptor_of(tensors, "token_embd.weight"@) {
        None => missing_tensor("token_embd.weight"@),
        Some(d) => {
            let e = d.dims@;
            if e.len() != 2 {
                bad_shape("token_embd.weight"@, e)
            } else if e[0] == 0 || e[1] == 0 {
                fault(Ds4ErrorKind::Model, "invalid token embedding shape"@)
            } else if metadata.head_count == Some(0u32) {
                fault(Ds4ErrorKind::Model, "head count is zero"@)
            } else {
                let m = dims_from(tensors, metadata, e);
                if m.layers != 0 && (m.head_dim == 0 || m.head_dim * m.n_heads != m.hidden) {
                    fault(
                        Ds4ErrorKind::Model,
                        "attention dimensions do not cover hidden size: heads="@ + dec(
                            m.n_heads as nat,
                        ) + " head_dim="@ + dec(m.head_dim as nat) + " hidden="@ + dec(
                            m.hidden as nat,
                        ),
                    )
                } else if even && m.layers != 0 && m.head_dim % 2 != 0 {
                    fault(
                        Ds4ErrorKind::Model,
                        "head_dim must be even for RoPE, got "@ + dec(m.head_dim as nat),
                    )
                } else {
                    None
                }
            }
        },
    }
}

/// The sizes that the descriptors give can be counted on this machine.
pub open spec fn dims_countable(tensors: Seq<TensorDescriptor>) -> bool {
    &&& layers_shown(tensors) <= usize::MAX
    &&& descriptor_of(tensors, "token_embd.weight"@) matches Some(d) ==> (d.dims@.len() == 2
        ==> d.dims@[1] * 4 <= usize::MAX)
}

/// Works out the dimensions of a model from its tensors.
pub fn infer_dims(tensors: &Vec<TensorDescriptor>, metadata: &GgufMetadata, even: bool) -> (r:
    Ds4Result<ModelDims>)
    requires
        dims_countable(tensors@),
    ensures
        match dims_fault(tensors@, *metadata, even) {
            Some(f) => r matches Err(e) && e.says(f),
            None => {
                &&& descriptor_of(tensors@, "token_embd.weight"@) matches Some(d)
                &&& r == Ok::<ModelDims, Ds4Error>(dims_from(tensors@, *metadata, d.dims@))
            },
        },
{
    let desc: &TensorDescriptor = match find_descriptor(tensors, "token_embd.weight") {
        Some(d) => d,
        None => return Err(missing_tensor_error("token_embd.weight")),
    };
    if desc.dims.len() != 2 {
        return Err(bad_shape_error("token_embd.weight", &desc.dims));
    }
    let vocab: usize = desc.dims[0] as usize;
    let hidden: usize = desc.dims[1] as usize;
    if vocab == 0 || hidden == 0 {
        return Err(
            Ds4Error::new(
                Ds4ErrorKind::Model,
                String::from_str("invalid token embedding shape"),
            ),
        );
    }
    let layers: usize = match metadata.layer_count {
        Some(v) => v as usize,
        None => infer_layer_count(tensors),
    };
    let n_heads: usize = match metadata.head_count {
        Some(v) => v as usize,
        None => 1,
    };
    if n_heads == 0 {
        return Err(Ds4Error::new(Ds4ErrorKind::Model, String::from_str("head count is zero")));
    }
    let head_dim: usize = match metadata.head_dim {
        Some(v) => v as usize,
        None => hidden / n_heads,
    };
    proof {
        assert(hidden / n_heads <= hidden) by (nonlinear_arith)
            requires
                n_heads >= 1,
        ;
        assert(head_dim * n_heads <= 0xffff_ffff * 0xffff_ffff) by (nonlinear_arith)
            requires
                head_dim <= 0xffff_ffff,
                n_heads <= 0xffff_ffff,
        ;
    }
    if layers != 0 && (head_dim == 0 || head_dim as u64 * n_heads as u64 != hidden as u64) {
        let mut m: String = String::from_str(
            "attention dimensions do not cover hidden size: heads=",
        );
        push_dec(&mut m, n_heads as u64);
        m.append(" head_dim=");
        push_dec(&mut m, head_dim as u64);
        m.append(" hidden=");
        push_dec(&mut m, hidden as u64);
        return Err(Ds4Error::new(Ds4ErrorKind::Model, m));
    }
    if even && layers != 0 && head_dim % 2 != 0 {
        let mut m: String = String::from_str("head_dim must be even for RoPE, got ");
        push_dec(&mut m, head_dim as u64);
        return Err(Ds4Error::new(Ds4ErrorKind::Model, m));
    }
    let ffn: usize = match find_descriptor(tensors, "blk.0.ffn_gate.weight") {
        Some(d) => if d.dims.len() > 1 {
            d.dims[1] as usize
        } else {
            hidden * 4
        },
        None => hidden * 4,
    };
    Ok(ModelDims { vocab, hidden, layers, n_heads, head_dim, ffn })
}

// ---- Kernels of a layer ----

/// Buffers that the kernels of a layer use.
#[derive(Debug, Clone, Copy, PartialEq, Eq, Structural)]
pub enum LayerBuf {
    X,
    AttnIn,
    Q,
    K,
    V,
    Attn,
    AttnProj,
    FfnIn,
    Gate,
    Up,
    Down,
    /// The sum of the results of experts.
    Sum,
}

/// Weights that the kernels of a layer use.
#[derive(Debug, Clone, Copy, PartialEq, Eq, Structural)]
pub enum LayerWeight {
    AttnNorm,
    AttnQ,
    AttnK,
    AttnV,
    AttnOutput,
    FfnNorm,
    FfnGate,
    FfnUp,
    FfnDown,
}

/// A kernel run.
#[derive(Debug, Clone, Copy, PartialEq, Eq, Structural)]
pub enum LayerOp {
    /// `to` becomes `from`, normalised and weighted.
    RmsNorm { from: LayerBuf, weight: LayerWeight, to: LayerBuf, n: usize },
    /// `to` becomes `from` times the weight.
    Matvec { from: LayerBuf, weight: LayerWeight, to: LayerBuf, in_dim: usize, out_dim: usize },
    /// Rotates each head of the buffer for a position.
    Rope { buf: LayerBuf, pos: usize, n_heads: usize, head_dim: usize },
    /// Copies K into the layer's cache, from element `start` on.
    StoreK { start: usize, n: usize },
    /// Copies V into the layer's cache, from element `start` on.
    StoreV { start: usize, n: usize },
    /// `Attn` becomes the attention of Q over the first `prefix_len` cached rows.
    Attention { prefix_len: usize, prefix_values: usize, n_heads: usize, head_dim: usize },
    /// Adds `from` to `to`.
    Add { to: LayerBuf, from: LayerBuf, n: usize },
    /// `gate` becomes SiLU of itself, times `up`.
    SiluProduct { gate: LayerBuf, up: LayerBuf, n: usize },
}

/// Where a token stands in a layer: its position for the rotation, its row in the cache, and the
/// number of rows that it attends to.
#[derive(Debug, Clone, Copy, PartialEq, Eq, Structural)]
pub struct LayerPos {
    pub rope_pos: usize,
    pub cache_pos: usize,
    pub prefix_len: usize,
}

impl LayerPos {
    /// The elements up to the token's row, and up to the prefix, can be counted.
    pub open spec fn countable(self, hidden: usize) -> bool {
        self.cache_pos * hidden + hidden <= usize::MAX && self.prefix_len * hidden <= usize::MAX
    }
}

/// The kernels of the attention block, and the norm after it, in order.
pub open spec fn attention_ops(dims: ModelDims, at: LayerPos) -> Seq<LayerOp> {
    let h = dims.hidden;
    seq![
        LayerOp::RmsNorm {
            from: LayerBuf::X,
            weight: LayerWeight::AttnNorm,
            to: LayerBuf::AttnIn,
            n: h,
        },
        LayerOp::Matvec {
            from: LayerBuf::AttnIn,
            weight: LayerWeight::AttnQ,
            to: LayerBuf::Q,
            in_dim: h,
            out_dim: h,
        },
        LayerOp::Matvec {
            from: LayerBuf::AttnIn,
            weight: LayerWeight::AttnK,
            to: LayerBuf::K,
            in_dim: h,
            out_dim: h,
        },
        LayerOp::Matvec {
            from: LayerBuf::AttnIn,
            weight: LayerWeight::AttnV,
            to: LayerBuf::V,
            in_dim: h,
            out_dim: h,
        },
        LayerOp::Rope {
            buf: LayerBuf::Q,
            pos: at.rope_pos,
            n_heads: dims.n_heads,
            head_dim: dims.head_dim,
        },
        LayerOp::Rope {
            buf: LayerBuf::K,
            pos: at.rope_pos,
            n_heads: dims.n_heads,
            head_dim: dims.head_dim,
        },
        LayerOp::StoreK { start: (at.cache_pos * h) as usize, n: h },
        LayerOp::StoreV { start: (at.cache_pos * h) as usize, n: h },
        LayerOp::Attention {
            prefix_len: at.prefix_len,
            prefix_values: (at.prefix_len * h) as usize,
            n_heads: dims.n_heads,
            head_dim: dims.head_dim,
        },
        LayerOp::Matvec {
            from: LayerBuf::Attn,
            weight: LayerWeight::AttnOutput,
            to: LayerBuf::AttnProj,
            in_dim: h,
            out_dim: h,
        },
        LayerOp::Add { to: LayerBuf::X, from: LayerBuf::AttnProj, n: h },
        LayerOp::RmsNorm {
            from: LayerBuf::X,
            weight: LayerWeight::FfnNorm,
            to: LayerBuf::FfnIn,
            n: h,
        },
    ]
}

/// The kernels of a dense feed-forward block, in order.
pub open spec fn dense_ops(dims: ModelDims) -> Seq<LayerOp> {
    seq![
        LayerOp::Matvec {
            from: LayerBuf::FfnIn,
            weight: LayerWeight::FfnGate,
            to: LayerBuf::Gate,
            in_dim: dims.hidden,
            out_dim: dims.ffn,
        },
        LayerOp::Matvec {
            from: LayerBuf::FfnIn,
            weight: LayerWeight::FfnUp,
            to: LayerBuf::Up,
            in_dim: dims.hidden,
            out_dim: dims.ffn,
        },
        LayerOp::SiluProduct { gate: LayerBuf::Gate, up: LayerBuf::Up, n: dims.ffn },
        LayerOp::Matvec {
            from: LayerBuf::Gate,
            weight: LayerWeight::FfnDown,
            to: LayerBuf::Down,
            in_dim: dims.ffn,
            out_dim: dims.hidden,
        },
        LayerOp::Add { to: LayerBuf::X, from: LayerBuf::Down, n: dims.hidden },
    ]
}

/// Lists the kernels of the attention block, and the norm after it.
pub fn attention_kernels(dims: ModelDims, at: LayerPos) -> (r: Vec<LayerOp>)
    requires
        at.countable(dims.hidden),
    ensures
        r@ == attention_ops(dims, at),
{
    let h: usize = dims.hidden;
    let mut v: Vec<LayerOp> = Vec::new();
    v.push(
        LayerOp::RmsNorm {
            from: LayerBuf::X,
            weight: LayerWeight::AttnNorm,
            to: LayerBuf::AttnIn,
            n: h,
        },
    );
    v.push(
        LayerOp::Matvec {
            from: LayerBuf::AttnIn,
            weight: LayerWeight::AttnQ,
            to: LayerBuf::Q,
            in_dim: h,
            out_dim: h,
        },
    );
    v.push(
        LayerOp::Matvec {
            from: LayerBuf::AttnIn,
            weight: LayerWeight::AttnK,
            to: LayerBuf::K,
            in_dim: h,
            out_dim: h,
        },
    );
    v.push(
        LayerOp::Matvec {
            from: LayerBuf::AttnIn,
            weight: LayerWeight::AttnV,
            to: LayerBuf::V,
            in_dim: h,
            out_dim: h,
        },
    );
    v.push(
        LayerOp::Rope {
            buf: LayerBuf::Q,
            pos: at.rope_pos,
            n_heads: dims.n_heads,
            head_dim: dims.head_dim,
        },
    );
    v.push(
        LayerOp::Rope {
            buf: LayerBuf::K,
            pos: at.rope_pos,
            n_heads: dims.n_heads,
            head_dim: dims.head_dim,
        },
    );
    let start: usize = at.cache_pos * h;
    v.push(LayerOp::StoreK { start, n: h });
    v.push(LayerOp::StoreV { start, n: h });
    v.push(
        LayerOp::Attention {
            prefix_len: at.prefix_len,
            prefix_values: at.prefix_len * h,
            n_heads: dims.n_heads,
            head_dim: dims.head_dim,
        },
    );
    v.push(
        LayerOp::Matvec {
            from: LayerBuf::Attn,
            weight: LayerWeight::AttnOutput,
            to: LayerBuf::AttnProj,
            in_dim: h,
            out_dim: h,
        },
    );
    v.push(LayerOp::Add { to: LayerBuf::X, from: LayerBuf::AttnProj, n: h });
    v.push(
        LayerOp::RmsNorm {
            from: LayerBuf::X,
            weight: LayerWeight::FfnNorm,
            to: LayerBuf::FfnIn,
            n: h,
        },
    );
    assert(v@ =~= attention_ops(dims, at));
    v
}

/// Lists the kernels of a dense feed-forward block.
pub fn dense_kernels(dims: ModelDims) -> (r: Vec<LayerOp>)
    ensures
        r@ == dense_ops(dims),
{
    let mut v: Vec<LayerOp> = Vec::new();
    v.push(
        LayerOp::Matvec {
            from: LayerBuf::FfnIn,
            weight: LayerWeight::FfnGate,
            to: LayerBuf::Gate,
            in_dim: dims.hidden,
            out_dim: dims.ffn,
        },
    );
    v.push(
        LayerOp::Matvec {
            from: LayerBuf::FfnIn,
            weight: LayerWeight::FfnUp,
            to: LayerBuf::Up,
            in_dim: dims.hidden,
            out_dim: dims.ffn,
        },
    );
    v.push(LayerOp::SiluProduct { gate: LayerBuf::Gate, up: LayerBuf::Up, n: dims.ffn });
    v.push(
        LayerOp::Matvec {
            from: LayerBuf::Gate,
            weight: LayerWeight::FfnDown,
            to: LayerBuf::Down,
            in_dim: dims.ffn,
            out_dim: dims.hidden,
        },
    );
    v.push(LayerOp::Add { to: LayerBuf::X, from: LayerBuf::Down, n: dims.hidden });
    assert(v@ =~= dense_ops(dims));
    v
}

// ---- What the kernels of a layer come to ----

/// The arithmetic of the kernels, whatever it is: each function takes the elements that a kernel
/// reads and the sizes that it is run with, and gives the elements that it writes.
pub struct Arithmetic {
    pub norm: spec_fn(Seq<u32>, LayerWeight, usize) -> Seq<u32>,
    pub product: spec_fn(Seq<u32>, LayerWeight, usize, usize) -> Seq<u32>,
    pub rotate: spec_fn(Seq<u32>, usize, usize, usize) -> Seq<u32>,
    pub attend: spec_fn(Seq<u32>, Seq<u32>, Seq<u32>, usize, usize, usize) -> Seq<u32>,
    pub sum: spec_fn(Seq<u32>, Seq<u32>, usize) -> Seq<u32>,
    pub gate: spec_fn(Seq<u32>, Seq<u32>, usize) -> Seq<u32>,
    /// A sum in which the second is multiplied with the share of an expert.
    pub scaled: spec_fn(Seq<u32>, Seq<u32>, usize) -> Seq<u32>,
}

/// The buffers of a layer, and its caches.
pub struct LayerState {
    pub bufs: Map<LayerBuf, Seq<u32>>,
    pub k: Seq<u32>,
    pub v: Seq<u32>,
}

/// What a kernel makes of the state.
pub open spec fn run_op(a: Arithmetic, s: LayerState, op: LayerOp) -> LayerState {
    match op {
        LayerOp::RmsNorm { from, weight, to, n } => LayerState {
            bufs: s.bufs.insert(to, (a.norm)(s.bufs[from], weight, n)),
            ..s
        },
        LayerOp::Matvec { from, weight, to, in_dim, out_dim } => LayerState {
            bufs: s.bufs.insert(to, (a.product)(s.bufs[from], weight, in_dim, out_dim)),
            ..s
        },
        LayerOp::Rope { buf, pos, n_heads, head_dim } => LayerState {
            bufs: s.bufs.insert(buf, (a.rotate)(s.bufs[buf], pos, n_heads, head_dim)),
            ..s
        },
        LayerOp::StoreK { start, n } => LayerState {
            k: overwritten(s.k, start as int, s.bufs[LayerBuf::K].take(n as int)),
            ..s
        },
        LayerOp::StoreV { start, n } => LayerState {
            v: overwritten(s.v, start as int, s.bufs[LayerBuf::V].take(n as int)),
            ..s
        },
        LayerOp::Attention { prefix_len, prefix_values, n_heads, head_dim } => LayerState {
            bufs: s.bufs.insert(
                LayerBuf::Attn,
                (a.attend)(
                    s.bufs[LayerBuf::Q],
                    s.k.take(prefix_values as int),
                    s.v.take(prefix_values as int),
                    prefix_len,
                    n_heads,
                    head_dim,
                ),
            ),
            ..s
        },
        LayerOp::Add { to, from, n } => LayerState {
            bufs: s.bufs.insert(to, (a.sum)(s.bufs[to], s.bufs[from], n)),
            ..s
        },
        LayerOp::SiluProduct { gate, up, n } => LayerState {
            bufs: s.bufs.insert(gate, (a.gate)(s.bufs[gate], s.bufs[up], n)),
            ..s
        },
    }
}

/// The state after the first `n` kernels.
pub open spec fn run_ops(a: Arithmetic, s: LayerState, ops: Seq<LayerOp>, n: nat) -> LayerState
    decreases n,
{
    if n == 0 {
        s
    } else {
        run_op(a, run_ops(a, s, ops, (n - 1) as nat), ops[n - 1])
    }
}

/// The hidden state after the attention block of a layer, and the layer's caches.
pub struct Attended {
    pub x: Seq<u32>,
    pub k: Seq<u32>,
    pub v: Seq<u32>,
}

/// What attention is: the normalised hidden state gives a query, a key and a value; the query and
/// the key are rotated by the position of the token; the key and the value become the token's row
/// of the caches; and what the query attends to in the rows of the prefix goes through the output
/// weight and is added to the hidden state.
pub open spec fn attended(
    a: Arithmetic,
    dims: ModelDims,
    at: LayerPos,
    x: Seq<u32>,
    k: Seq<u32>,
    v: Seq<u32>,
) -> Attended {
    let h = dims.hidden;
    let normed = (a.norm)(x, LayerWeight::AttnNorm, h);
    let turned = |w: LayerWeight|
        (a.rotate)((a.product)(normed, w, h, h), at.rope_pos, dims.n_heads, dims.head_dim);
    let query = turned(LayerWeight::AttnQ);
    let key = turned(LayerWeight::AttnK);
    let value = (a.product)(normed, LayerWeight::AttnV, h, h);
    let keys = overwritten(k, at.cache_pos * h, key.take(h as int));
    let values = overwritten(v, at.cache_pos * h, value.take(h as int));
    let seen = (a.attend)(
        query,
        keys.take(at.prefix_len * h),
        values.take(at.prefix_len * h),
        at.prefix_len,
        dims.n_heads,
        dims.head_dim,
    );
    let out = (a.product)(seen, LayerWeight::AttnOutput, h, h);
    Attended { x: (a.sum)(x, out, h), k: keys, v: values }
}

/// What a dense feed-forward block is: the products of the normalised hidden state with two weights
/// are multiplied, the first of them activated, go through a third weight, and are added to the
/// hidden state.
pub open spec fn fed_forward(a: Arithmetic, dims: ModelDims, x: Seq<u32>) -> Seq<u32> {
    let h = dims.hidden;
    let normed = (a.norm)(x, LayerWeight::FfnNorm, h);
    let gate = (a.product)(normed, LayerWeight::FfnGate, h, dims.ffn);
    let up = (a.product)(normed, LayerWeight::FfnUp, h, dims.ffn);
    let down = (a.product)((a.gate)(gate, up, dims.ffn), LayerWeight::FfnDown, dims.ffn, h);
    (a.sum)(x, down, h)
}

/// Whatever the arithmetic is, the kernels of the attention block leave the hidden state and the
/// caches that attention gives, and the normalised hidden state for the feed-forward block.
pub proof fn law_attention_value(a: Arithmetic, dims: ModelDims, at: LayerPos, s: LayerState)
    requires
        at.countable(dims.hidden),
    ensures
        ({
            let ops = attention_ops(dims, at);
            let r = run_ops(a, s, ops, ops.len());
            let e = attended(a, dims, at, s.bufs[LayerBuf::X], s.k, s.v);
            &&& r.bufs[LayerBuf::X] == e.x
            &&& r.bufs[LayerBuf::FfnIn] == (a.norm)(e.x, LayerWeight::FfnNorm, dims.hidden)
            &&& r.k == e.k
            &&& r.v == e.v
        }),
{
    let ops = attention_ops(dims, at);
    let e = attended(a, dims, at, s.bufs[LayerBuf::X], s.k, s.v);
    let h = dims.hidden;
    assert(0 <= at.cache_pos * h && 0 <= at.prefix_len * h) by (nonlinear_arith);
    assert(ops.len() == 12);
    reveal_with_fuel(run_ops, 13);
    let s1 = run_op(a, s, ops[0]);
    let s2 = run_op(a, s1, ops[1]);
    let s3 = run_op(a, s2, ops[2]);
    let s4 = run_op(a, s3, ops[3]);
    let s5 = run_op(a, s4, ops[4]);
    let s6 = run_op(a, s5, ops[5]);
    let s7 = run_op(a, s6, ops[6]);
    let s8 = run_op(a, s7, ops[7]);
    let s9 = run_op(a, s8, ops[8]);
    let s10 = run_op(a, s9, ops[9]);
    let s11 = run_op(a, s10, ops[10]);
    let s12 = run_op(a, s11, ops[11]);
    assert(run_ops(a, s, ops, 12) == s12);
    assert(s8.k == e.k);
    assert(s8.v == e.v);
    assert(s11.bufs[LayerBuf::X] == e.x);
}

/// Whatever the arithmetic is, the kernels of the dense feed-forward block, run on the normalised
/// hidden state, leave the hidden state that feeding forward gives.
pub proof fn law_dense_value(a: Arithmetic, dims: ModelDims, s: LayerState)
    requires
        s.bufs[LayerBuf::FfnIn] == (a.norm)(
            s.bufs[LayerBuf::X],
            LayerWeight::FfnNorm,
            dims.hidden,
        ),
    ensures
        ({
            let ops = dense_ops(dims);
            let r = run_ops(a, s, ops, ops.len());
            &&& r.bufs[LayerBuf::X] == fed_forward(a, dims, s.bufs[LayerBuf::X])
            &&& r.k == s.k
            &&& r.v == s.v
        }),
{
    let ops = dense_ops(dims);
    assert(ops.len() == 5);
    reveal_with_fuel(run_ops, 6);
    let s1 = run_op(a, s, ops[0]);
    let s2 = run_op(a, s1, ops[1]);
    let s3 = run_op(a, s2, ops[2]);
    let s4 = run_op(a, s3, ops[3]);
    assert(run_ops(a, s, ops, 5) == run_op(a, s4, ops[4]));
}

proof fn lemma_run_ops_concat(
    a: Arithmetic,
    s: LayerState,
    first: Seq<LayerOp>,
    second: Seq<LayerOp>,
    n: nat,
)
    requires
        n <= second.len(),
    ensures
        run_ops(a, s, first + second, first.len() + n) == run_ops(
            a,
            run_ops(a, s, first, first.len()),
            second,
            n,
        ),
    decreases n,
{
    if n == 0 {
        lemma_run_ops_prefix(a, s, first, second, first.len());
    } else {
        lemma_run_ops_concat(a, s, first, second, (n - 1) as nat);
        assert((first + second)[first.len() + n - 1] == second[n - 1]);
        assert((first.len() + n - 1) as nat == first.len() + (n - 1) as nat);
    }
}

proof fn lemma_run_ops_prefix(
    a: Arithmetic,
    s: LayerState,
    first: Seq<LayerOp>,
    second: Seq<LayerOp>,
    n: nat,
)
    requires
        n <= first.len(),
    ensures
        run_ops(a, s, first + second, n) == run_ops(a, s, first, n),
    decreases n,
{
    if n > 0 {
        lemma_run_ops_prefix(a, s, first, second, (n - 1) as nat);
        assert((first + second)[n - 1] == first[n - 1]);
    }
}

/// Whatever the arithmetic is, the kernels of a dense layer leave the hidden state that attention
/// and then feeding forward give, and the caches that attention gives.
pub proof fn law_layer_value(a: Arithmetic, dims: ModelDims, at: LayerPos, s: LayerState)
    requires
        at.countable(dims.hidden),
    ensures
        ({
            let ops = attention_ops(dims, at) + dense_ops(dims);
            let r = run_ops(a, s, ops, ops.len());
            let e = attended(a, dims, at, s.bufs[LayerBuf::X], s.k, s.v);
            &&& r.bufs[LayerBuf::X] == fed_forward(a, dims, e.x)
            &&& r.k == e.k
            &&& r.v == e.v
        }),
{
    let first = attention_ops(dims, at);
    let second = dense_ops(dims);
    law_attention_value(a, dims, at, s);
    lemma_run_ops_concat(a, s, first, second, second.len());
    law_dense_value(a, dims, run_ops(a, s, first, first.len()));
}

/// Where a kernel leaves its result among the buffers.
pub open spec fn op_target(op: LayerOp) -> Option<LayerBuf> {
    match op {
        LayerOp::RmsNorm { from, weight, to, n } => Some(to),
        LayerOp::Matvec { from, weight, to, in_dim, out_dim } => Some(to),
        LayerOp::Rope { buf, pos, n_heads, head_dim } => Some(buf),
        LayerOp::StoreK { start, n } => None,
        LayerOp::StoreV { start, n } => None,
        LayerOp::Attention { prefix_len, prefix_values, n_heads, head_dim } => Some(LayerBuf::Attn),
        LayerOp::Add { to, from, n } => Some(to),
        LayerOp::SiluProduct { gate, up, n } => Some(gate),
    }
}

/// The query and the key are each rotated once, by the position of the token, behind the product
/// that fills them and before anything reads them; nothing else is rotated. The key that is stored
/// is the rotated one, and the value is stored as its product left it.
pub proof fn law_rotations(dims: ModelDims, at: LayerPos, i: int)
    requires
        0 <= i < attention_ops(dims, at).len(),
        attention_ops(dims, at)[i] is Rope,
    ensures
        ({
            let ops = attention_ops(dims, at);
            &&& ops[i] matches LayerOp::Rope { buf, pos, n_heads, head_dim }
            &&& buf == LayerBuf::Q || buf == LayerBuf::K
            &&& pos == at.rope_pos
            &&& n_heads == dims.n_heads
            &&& head_dim == dims.head_dim
            &&& forall|j: int|
                0 <= j < ops.len() && j != i && #[trigger] op_target(ops[j]) == Some(buf) ==> j < i
                    && ops[j] is Matvec
            &&& forall|j: int|
                0 <= j < ops.len() && (#[trigger] ops[j] is StoreK || ops[j] is Attention) ==> i < j
            &&& exists|j: int|
                0 <= j < ops.len() && j != i && (#[trigger] ops[j]) is Rope && op_target(ops[j])
                    != Some(buf)
        }),
{
    let ops = attention_ops(dims, at);
    assert(ops[4] is Rope && ops[5] is Rope);
    assert(op_target(ops[4]) != op_target(ops[5]));
    assert forall|j: int| 0 <= j < ops.len() && #[trigger] ops[j] is Rope implies j == 4 || j
        == 5 by {}
}

/// The name of a weight of a layer; that of a feed-forward weight only in a dense block.
pub open spec fn weight_name(names: LayerTensorNames, w: LayerWeight) -> Seq<char> {
    match w {
        LayerWeight::AttnNorm => names.attn_norm@,
        LayerWeight::AttnQ => names.attn_q@,
        LayerWeight::AttnK => names.attn_k@,
        LayerWeight::AttnV => names.attn_v@,
        LayerWeight::AttnOutput => names.attn_output@,
        LayerWeight::FfnNorm => names.ffn_norm@,
        LayerWeight::FfnGate => match names.ffn {
            FfnTensorNames::Dense { gate, up, down } => gate@,
            _ => Seq::empty(),
        },
        LayerWeight::FfnUp => match names.ffn {
            FfnTensorNames::Dense { gate, up, down } => up@,
            _ => Seq::empty(),
        },
        LayerWeight::FfnDown => match names.ffn {
            FfnTensorNames::Dense { gate, up, down } => down@,
            _ => Seq::empty(),
        },
    }
}

impl LayerTensorNames {
    /// The name of a weight; empty for a feed-forward weight that is not in a dense block.
    pub fn weight(&self, w: LayerWeight) -> (r: &str)
        ensures
            r@ == weight_name(*self, w),
    {
        match w {
            LayerWeight::AttnNorm => self.attn_norm.as_str(),
            LayerWeight::AttnQ => self.attn_q.as_str(),
            LayerWeight::AttnK => self.attn_k.as_str(),
            LayerWeight::AttnV => self.attn_v.as_str(),
            LayerWeight::AttnOutput => self.attn_output.as_str(),
            LayerWeight::FfnNorm => self.ffn_norm.as_str(),
            LayerWeight::FfnGate => match &self.ffn {
                FfnTensorNames::Dense { gate, up, down } => gate.as_str(),
                _ => empty_name(),
            },
            LayerWeight::FfnUp => match &self.ffn {
                FfnTensorNames::Dense { gate, up, down } => up.as_str(),
                _ => empty_name(),
            },
            LayerWeight::FfnDown => match &self.ffn {
                FfnTensorNames::Dense { gate, up, down } => down.as_str(),
                _ => empty_name(),
            },
        }
    }
}

fn empty_name() -> (r: &'static str)
    ensures
        r@ == Seq::<char>::empty(),
{
    proof {
        reveal_strlit("");
    }
    let s: &'static str = "";
    assert(s@ =~= Seq::<char>::empty());
    s
}

/// The first fault of kernels that are checked in order.
pub open spec fn first_fault(
    ops: Seq<LayerOp>,
    check: spec_fn(LayerOp) -> Option<Fault>,
    from: int,
) -> Option<Fault>
    decreases ops.len() - from,
{
    if from < 0 || from >= ops.len() {
        None
    } else if check(ops[from]) is Some {
        check(ops[from])
    } else {
        first_fault(ops, check, from + 1)
    }
}

// ---- Layer slices ----

/// A layer to be run for a token.
#[derive(Debug, Clone, Copy, PartialEq, Eq, Structural)]
pub struct LayerCall {
    pub token_idx: usize,
    pub layer: usize,
    /// The layer's place in the slice, and so in the list of caches.
    pub local_layer: usize,
    pub at: LayerPos,
}

/// The call for a token and a layer of the slice that starts at `layer_start`.
pub open spec fn slice_call(pos0: usize, layer_start: usize, token: int, local: int) -> LayerCall {
    LayerCall {
        token_idx: token as usize,
        layer: (layer_start + local) as usize,
        local_layer: local as usize,
        at: LayerPos {
            rope_pos: (pos0 + token) as usize,
            cache_pos: token as usize,
            prefix_len: (token + 1) as usize,
        },
    }
}

/// The calls of a slice: token by token, and for each token layer by layer.
pub open spec fn slice_calls(
    pos0: usize,
    layer_start: usize,
    layer_end: usize,
    n_tokens: usize,
) -> Seq<LayerCall> {
    let width = layer_end - layer_start;
    Seq::new(
        (n_tokens * width) as nat,
        |i: int| slice_call(pos0, layer_start, i / width, i % width),
    )
}

/// Lists the calls of a slice.
pub fn layer_calls(pos0: usize, layer_start: usize, layer_end: usize, n_tokens: usize) -> (r: Vec<
    LayerCall,
>)
    requires
        layer_start <= layer_end,
        pos0 + n_tokens <= usize::MAX + 1,
    ensures
        r@ == slice_calls(pos0, layer_start, layer_end, n_tokens),
{
    let mut v: Vec<LayerCall> = Vec::new();
    let ghost width = layer_end - layer_start;
    let mut t: usize = 0;
    while t < n_tokens
        invariant
            t <= n_tokens,
            layer_start <= layer_end,
            width == layer_end - layer_start,
            pos0 + n_tokens <= usize::MAX + 1,
            v@.len() == t * width,
            width > 0 ==> forall|i: int|
                0 <= i < v@.len() ==> #[trigger] v@[i] == slice_call(
                    pos0,
                    layer_start,
                    i / width,
                    i % width,
                ),
        decreases n_tokens - t,
    {
        let mut layer: usize = layer_start;
        while layer < layer_end
            invariant
                layer_start <= layer <= layer_end,
                t < n_tokens,
                width == layer_end - layer_start,
                pos0 + n_tokens <= usize::MAX + 1,
                v@.len() == t * width + (layer - layer_start),
                width > 0 ==> forall|i: int|
                    0 <= i < v@.len() ==> #[trigger] v@[i] == slice_call(
                        pos0,
                        layer_start,
                        i / width,
                        i % width,
                    ),
            decreases layer_end - layer,
        {
            proof {
                let i = v@.len() as int;
                let local = layer - layer_start;
                assert(i / width == t && i % width == local) by {
                    vstd::arithmetic::div_mod::lemma_fundamental_div_mod_converse(
                        i,
                        width as int,
                        t as int,
                        local as int,
                    );
                }
            }
            v.push(
                LayerCall {
                    token_idx: t,
                    layer,
                    local_layer: layer - layer_start,
                    at: LayerPos { rope_pos: pos0 + t, cache_pos: t, prefix_len: t + 1 },
                },
            );
            layer += 1;
        }
        proof {
            assert(t * width + width == (t + 1) * width) by (nonlinear_arith);
        }
        t += 1;
    }
    proof {
        assert(width == 0 ==> n_tokens * width == 0) by (nonlinear_arith);
        assert(v@ =~= slice_calls(pos0, layer_start, layer_end, n_tokens));
    }
    v
}

/// In a slice the rows that a token attends to have all been stored before: each row of the
/// layer's cache below the prefix was stored by an earlier call for the same layer, or is stored
/// by this one.
pub proof fn law_prefix_is_stored(
    pos0: usize,
    layer_start: usize,
    layer_end: usize,
    n_tokens: usize,
    i: int,
    row: int,
)
    requires
        layer_start < layer_end,
        0 <= i < slice_calls(pos0, layer_start, layer_end, n_tokens).len(),
        0 <= row < slice_calls(pos0, layer_start, layer_end, n_tokens)[i].at.prefix_len,
    ensures
        exists|j: int|
            #![trigger slice_calls(pos0, layer_start, layer_end, n_tokens)[j]]
            0 <= j <= i && slice_calls(pos0, layer_start, layer_end, n_tokens)[j].layer
                == slice_calls(pos0, layer_start, layer_end, n_tokens)[i].layer && slice_calls(
                pos0,
                layer_start,
                layer_end,
                n_tokens,
            )[j].at.cache_pos == row,
{
    let calls = slice_calls(pos0, layer_start, layer_end, n_tokens);
    let width = layer_end - layer_start;
    let t = i / width;
    let local = i % width;
    vstd::arithmetic::div_mod::lemma_fundamental_div_mod(i, width);
    assert(0 <= t < n_tokens) by (nonlinear_arith)
        requires
            i == width * t + local,
            0 <= local < width,
            0 <= i < n_tokens * width,
    ;
    assert(row <= t);
    let j = row * width + local;
    assert(0 <= j <= i) by (nonlinear_arith)
        requires
            j == row * width + local,
            i == width * t + local,
            0 <= row <= t,
            0 <= local < width,
    ;
    assert(j / width == row && j % width == local) by {
        vstd::arithmetic::div_mod::lemma_fundamental_div_mod_converse(j, width, row, local);
    }
    assert(calls[j].layer == calls[i].layer);
    assert(calls[j].at.cache_pos == row);
}

/// In the calls of a slice every token goes through every layer once: behind the calls of the
/// tokens before it, and layer after layer. The token is rotated by its position in the sequence,
/// stored in its own row, and attends to that row and all rows before it.
pub proof fn law_slice_positions(
    pos0: usize,
    layer_start: usize,
    layer_end: usize,
    n_tokens: usize,
    token: int,
    layer: int,
)
    requires
        0 <= token < n_tokens,
        layer_start <= layer < layer_end,
        pos0 + n_tokens <= usize::MAX + 1,
    ensures
        ({
            let calls = slice_calls(pos0, layer_start, layer_end, n_tokens);
            let i = token * (layer_end - layer_start) + (layer - layer_start);
            &&& calls.len() == n_tokens * (layer_end - layer_start)
            &&& 0 <= i < calls.len()
            &&& calls[i].token_idx == token
            &&& calls[i].layer == layer
            &&& calls[i].local_layer == layer - layer_start
            &&& calls[i].at.rope_pos == pos0 + token
            &&& calls[i].at.cache_pos == token
            &&& calls[i].at.prefix_len == token + 1
        }),
{
    let width = layer_end - layer_start;
    let local = layer - layer_start;
    let i = token * width + local;
    assert(0 <= i < n_tokens * width) by (nonlinear_arith)
        requires
            i == token * width + local,
            0 <= token < n_tokens,
            0 <= local < width,
    ;
    vstd::arithmetic::div_mod::lemma_fundamental_div_mod_converse(i, width as int, token, local);
}

// ---- Slices in turn ----

/// The hidden states of the tokens, and the caches of the layers of a slice.
pub struct RunState<X, C> {
    pub rows: Seq<X>,
    pub caches: Seq<C>,
}

/// What a call makes of the state. `step` is what a layer makes of the hidden state of a token and
/// of its cache.
pub open spec fn run_call<X, C>(
    step: spec_fn(usize, LayerPos, X, C) -> (X, C),
    call: LayerCall,
    s: RunState<X, C>,
) -> RunState<X, C> {
    let t = call.token_idx as int;
    let l = call.local_layer as int;
    let (x, c) = step(call.layer, call.at, s.rows[t], s.caches[l]);
    RunState { rows: s.rows.update(t, x), caches: s.caches.update(l, c) }
}

/// What calls, one after the other, make of the state.
pub open spec fn run_calls<X, C>(
    step: spec_fn(usize, LayerPos, X, C) -> (X, C),
    calls: Seq<LayerCall>,
    s: RunState<X, C>,
) -> RunState<X, C>
    decreases calls.len(),
{
    if calls.len() == 0 {
        s
    } else {
        run_call(step, calls.last(), run_calls(step, calls.drop_last(), s))
    }
}

/// The hidden states after a slice, whose caches are `empty` at first.
pub open spec fn run_slice<X, C>(
    step: spec_fn(usize, LayerPos, X, C) -> (X, C),
    empty: C,
    rows: Seq<X>,
    pos0: usize,
    layer_start: usize,
    layer_end: usize,
) -> Seq<X> {
    run_calls(
        step,
        slice_calls(pos0, layer_start, layer_end, rows.len() as usize),
        RunState { rows, caches: Seq::new((layer_end - layer_start) as nat, |i: int| empty) },
    ).rows
}

/// The hidden state of token `t` after the first `n` layers of a slice.
spec fn hidden_after<X, C>(
    step: spec_fn(usize, LayerPos, X, C) -> (X, C),
    empty: C,
    rows: Seq<X>,
    pos0: usize,
    start: usize,
    n: nat,
    t: nat,
) -> X
    decreases n, t,
{
    if n == 0 {
        rows[t as int]
    } else {
        let call = slice_call(pos0, start, t as int, n - 1);
        step(
            call.layer,
            call.at,
            hidden_after(step, empty, rows, pos0, start, (n - 1) as nat, t),
            cache_after(step, empty, rows, pos0, start, (n - 1) as nat, t),
        ).0
    }
}

/// The cache of layer `n` of a slice after the first `t` tokens.
spec fn cache_after<X, C>(
    step: spec_fn(usize, LayerPos, X, C) -> (X, C),
    empty: C,
    rows: Seq<X>,
    pos0: usize,
    start: usize,
    n: nat,
    t: nat,
) -> C
    decreases n, t,
{
    if t == 0 {
        empty
    } else {
        let call = slice_call(pos0, start, t - 1, n as int);
        step(
            call.layer,
            call.at,
            hidden_after(step, empty, rows, pos0, start, n, (t - 1) as nat),
            cache_after(step, empty, rows, pos0, start, n, (t - 1) as nat),
        ).1
    }
}

proof fn lemma_run_calls<X, C>(
    step: spec_fn(usize, LayerPos, X, C) -> (X, C),
    empty: C,
    rows: Seq<X>,
    pos0: usize,
    start: usize,
    end: usize,
    i: nat,
)
    requires
        start < end,
        rows.len() <= usize::MAX,
        i <= rows.len() * (end - start),
    ensures
        ({
            let w = end - start;
            let t = i as int / w;
            let l = i as int % w;
            let calls = slice_calls(pos0, start, end, rows.len() as usize).take(i as int);
            let s = run_calls(
                step,
                calls,
                RunState { rows, caches: Seq::new(w as nat, |j: int| empty) },
            );
            &&& s.rows.len() == rows.len()
            &&& s.caches.len() == w
            &&& forall|u: int|
                0 <= u < rows.len() ==> #[trigger] s.rows[u] == hidden_after(
                    step,
                    empty,
                    rows,
                    pos0,
                    start,
                    if u < t {
                        w as nat
                    } else if u == t {
                        l as nat
                    } else {
                        0
                    },
                    u as nat,
                )
            &&& forall|j: int|
                0 <= j < w ==> #[trigger] s.caches[j] == cache_after(
                    step,
                    empty,
                    rows,
                    pos0,
                    start,
                    j as nat,
                    if j < l {
                        (t + 1) as nat
                    } else {
                        t as nat
                    },
                )
        }),
    decreases i,
{
    let w = end - start;
    let all = slice_calls(pos0, start, end, rows.len() as usize);
    let t = i as int / w;
    let l = i as int % w;
    vstd::arithmetic::div_mod::lemma_fundamental_div_mod(i as int, w);
    if i == 0 {
        assert(t == 0 && l == 0) by {
            vstd::arithmetic::div_mod::lemma_fundamental_div_mod_converse(0, w, 0, 0);
        }
    } else {
        lemma_run_calls(step, empty, rows, pos0, start, end, (i - 1) as nat);
        let k = i - 1;
        let t0 = k / w;
        let l0 = k % w;
        vstd::arithmetic::div_mod::lemma_fundamental_div_mod(k, w);
        assert(0 <= t0 < rows.len()) by (nonlinear_arith)
            requires
                k == w * t0 + l0,
                0 <= l0 < w,
                0 <= k < rows.len() * w,
        ;
        assert(t0 * w == w * t0 && (t0 + 1) * w == w * t0 + w) by (nonlinear_arith);
        assert(all.take(i as int).drop_last() =~= all.take(k));
        assert(all.take(i as int).last() == slice_call(pos0, start, t0, l0));
        if l0 + 1 < w {
            assert(t == t0 && l == l0 + 1) by {
                vstd::arithmetic::div_mod::lemma_fundamental_div_mod_converse(
                    i as int,
                    w,
                    t0,
                    l0 + 1,
                );
            }
        } else {
            assert(t == t0 + 1 && l == 0) by {
                vstd::arithmetic::div_mod::lemma_fundamental_div_mod_converse(
                    i as int,
                    w,
                    t0 + 1,
                    0,
                );
            }
        }
    }
}

proof fn lemma_run_slice<X, C>(
    step: spec_fn(usize, LayerPos, X, C) -> (X, C),
    empty: C,
    rows: Seq<X>,
    pos0: usize,
    start: usize,
    end: usize,
)
    requires
        start <= end,
        rows.len() <= usize::MAX,
    ensures
        run_slice(step, empty, rows, pos0, start, end).len() == rows.len(),
        forall|t: int|
            0 <= t < rows.len() ==> #[trigger] run_slice(step, empty, rows, pos0, start, end)[t]
                == hidden_after(step, empty, rows, pos0, start, (end - start) as nat, t as nat),
{
    let all = slice_calls(pos0, start, end, rows.len() as usize);
    let w = end - start;
    if w == 0 {
        assert(rows.len() * w == 0) by (nonlinear_arith)
            requires
                w == 0,
        ;
        assert(all.len() == 0);
    } else {
        let n = (rows.len() * w) as nat;
        assert(rows.len() * w >= 0) by (nonlinear_arith)
            requires
                w >= 0,
        ;
        lemma_run_calls(step, empty, rows, pos0, start, end, n);
        assert(all.take(n as int) =~= all);
        assert(n as int / w == rows.len()) by {
            assert(rows.len() * w == w * rows.len()) by (nonlinear_arith);
            vstd::arithmetic::div_mod::lemma_fundamental_div_mod_converse(
                n as int,
                w,
                rows.len() as int,
                0,
            );
        }
    }
}

proof fn lemma_hidden_in_turn<X, C>(
    step: spec_fn(usize, LayerPos, X, C) -> (X, C),
    empty: C,
    rows: Seq<X>,
    mid: Seq<X>,
    pos0: usize,
    start: usize,
    k: usize,
    n: nat,
    t: nat,
)
    requires
        start + k <= usize::MAX,
        mid.len() == rows.len(),
        t < rows.len(),
        forall|u: int|
            0 <= u < rows.len() ==> #[trigger] mid[u] == hidden_after(
                step,
                empty,
                rows,
                pos0,
                start,
                k as nat,
                u as nat,
            ),
    ensures
        hidden_after(step, empty, mid, pos0, (start + k) as usize, n, t) == hidden_after(
            step,
            empty,
            rows,
            pos0,
            start,
            n + k as nat,
            t,
        ),
        cache_after(step, empty, mid, pos0, (start + k) as usize, n, t) == cache_after(
            step,
            empty,
            rows,
            pos0,
            start,
            n + k as nat,
            t,
        ),
    decreases n, t,
{
    if n > 0 {
        lemma_hidden_in_turn(step, empty, rows, mid, pos0, start, k, (n - 1) as nat, t);
        assert((n - 1) as nat + k as nat == (n + k as nat - 1) as nat);
    }
    if t > 0 {
        lemma_hidden_in_turn(step, empty, rows, mid, pos0, start, k, n, (t - 1) as nat);
    }
}

/// Running the layers of a range gives the hidden states that running its two parts in turn gives,
/// whatever a layer computes; and a range without layers leaves them as they are.
pub proof fn law_slice_in_turn<X, C>(
    step: spec_fn(usize, LayerPos, X, C) -> (X, C),
    empty: C,
    rows: Seq<X>,
    pos0: usize,
    a: usize,
    b: usize,
    c: usize,
)
    requires
        a <= b <= c,
        rows.len() <= usize::MAX,
    ensures
        run_slice(step, empty, rows, pos0, a, c) == run_slice(
            step,
            empty,
            run_slice(step, empty, rows, pos0, a, b),
            pos0,
            b,
            c,
        ),
        run_slice(step, empty, rows, pos0, a, a) == rows,
{
    let mid = run_slice(step, empty, rows, pos0, a, b);
    let whole = run_slice(step, empty, rows, pos0, a, c);
    let last = run_slice(step, empty, mid, pos0, b, c);
    let same = run_slice(step, empty, rows, pos0, a, a);
    lemma_run_slice(step, empty, rows, pos0, a, b);
    lemma_run_slice(step, empty, rows, pos0, a, c);
    lemma_run_slice(step, empty, rows, pos0, a, a);
    lemma_run_slice(step, empty, mid, pos0, b, c);
    let k = (b - a) as usize;
    assert forall|t: int| 0 <= t < rows.len() implies whole[t] == #[trigger] last[t] by {
        lemma_hidden_in_turn(step, empty, rows, mid, pos0, a, k, (c - b) as nat, t as nat);
        assert((c - b) as nat + k as nat == (c - a) as nat);
    }
    assert(whole =~= last);
    assert(same =~= rows);
}

// ---- Laws of names and dimensions ----

/// The kernels of a layer take each weight from the tensor that the file has it under, and all of
/// these names show the layer they belong to.
pub proof fn law_weight_names(names: LayerTensorNames, layer: usize)
    requires
        usual_names(names, layer),
    ensures
        ({
            let n = "blk."@ + dec(layer as nat);
            &&& weight_name(names, LayerWeight::AttnNorm) == n + ".attn_norm.weight"@
            &&& weight_name(names, LayerWeight::AttnQ) == n + ".attn_q.weight"@
            &&& weight_name(names, LayerWeight::AttnK) == n + ".attn_k.weight"@
            &&& weight_name(names, LayerWeight::AttnV) == n + ".attn_v.weight"@
            &&& weight_name(names, LayerWeight::AttnOutput) == n + ".attn_out.weight"@
            &&& weight_name(names, LayerWeight::FfnNorm) == n + ".ffn_norm.weight"@
            &&& weight_name(names, LayerWeight::FfnGate) == n + ".ffn_gate.weight"@
            &&& weight_name(names, LayerWeight::FfnUp) == n + ".ffn_up.weight"@
            &&& weight_name(names, LayerWeight::FfnDown) == n + ".ffn_down.weight"@
        }),
        forall|w: LayerWeight|
            layer_of_name(encode_utf8(#[trigger] weight_name(names, w))) == Some(layer),
{
    reveal_strlit(".");
    reveal_strlit(".attn_norm.weight");
    reveal_strlit(".attn_q.weight");
    reveal_strlit(".attn_k.weight");
    reveal_strlit(".attn_v.weight");
    reveal_strlit(".attn_out.weight");
    reveal_strlit(".ffn_norm.weight");
    reveal_strlit(".ffn_gate.weight");
    reveal_strlit(".ffn_up.weight");
    reveal_strlit(".ffn_down.weight");
    let n = "blk."@ + dec(layer as nat);
    assert forall|w: LayerWeight|
        layer_of_name(encode_utf8(#[trigger] weight_name(names, w))) == Some(layer) by {
        let tail = weight_name(names, w).skip((n.len() + 1) as int);
        assert(weight_name(names, w) =~= n + "."@ + tail);
        law_layer_of_name(layer, tail);
    }
}

/// Dimensions that were inferred without a fault: the token embedding has one row of the hidden
/// size for each token of the vocabulary, the metadata give the layers and heads where they state
/// them, and in a model with layers the heads make up the hidden size, and are even where that is
/// asked for.
pub proof fn law_dims_inferred(
    tensors: Seq<TensorDescriptor>,
    metadata: GgufMetadata,
    even: bool,
    e: TensorDescriptor,
)
    requires
        descriptor_of(tensors, "token_embd.weight"@) == Some(e),
        dims_fault(tensors, metadata, even) is None,
        layers_shown(tensors) <= usize::MAX,
    ensures
        ({
            let m = dims_from(tensors, metadata, e.dims@);
            &&& e.dims@ == seq![m.vocab as u32, m.hidden as u32]
            &&& 0 < m.vocab <= u32::MAX && 0 < m.hidden <= u32::MAX
            &&& metadata.layer_count matches Some(n) ==> m.layers == n
            &&& metadata.layer_count is None ==> m.layers == layers_shown(tensors)
            &&& metadata.head_count matches Some(n) ==> m.n_heads == n
            &&& metadata.head_count is None ==> m.n_heads == 1
            &&& metadata.head_dim matches Some(n) ==> m.head_dim == n
            &&& m.layers > 0 ==> m.n_heads * m.head_dim == m.hidden
            &&& m.layers > 0 && even ==> m.head_dim % 2 == 0
            &&& descriptor_of(tensors, "blk.0.ffn_gate.weight"@) matches Some(g) ==> (
            g.dims@.len() == 2 ==> m.ffn == g.dims@[1])
            &&& descriptor_of(tensors, "blk.0.ffn_gate.weight"@) is None && 4 * m.hidden
                <= usize::MAX ==> m.ffn == 4 * m.hidden
        }),
{
    let m = dims_from(tensors, metadata, e.dims@);
    assert(e.dims@ =~= seq![m.vocab as u32, m.hidden as u32]);
    assert(m.n_heads * m.head_dim == m.head_dim * m.n_heads) by (nonlinear_arith);
}

/// Where the embedding is a matrix without an empty side and the metadata's heads make up its
/// width, the dimensions can be inferred.
pub proof fn law_dims_can_be_inferred(
    tensors: Seq<TensorDescriptor>,
    metadata: GgufMetadata,
    even: bool,
    vocab: u32,
    hidden: u32,
    e: TensorDescriptor,
)
    requires
        descriptor_of(tensors, "token_embd.weight"@) == Some(e),
        e.dims@ == seq![vocab, hidden],
        vocab > 0,
        hidden > 0,
        metadata.head_count matches Some(n) && metadata.head_dim matches Some(d) && n > 0 && d > 0
            && n * d == hidden && (even ==> d % 2 == 0),
    ensures
        dims_fault(tensors, metadata, even) is None,
{
    let m = dims_from(tensors, metadata, e.dims@);
    assert(m.head_dim * m.n_heads == m.n_heads * m.head_dim) by (nonlinear_arith);
}

/// The fault that kernels are reported with is that of the first kernel that has one; without a
/// fault no kernel has one.
pub proof fn law_first_fault(
    ops: Seq<LayerOp>,
    check: spec_fn(LayerOp) -> Option<Fault>,
    from: int,
)
    requires
        0 <= from <= ops.len(),
    ensures
        match first_fault(ops, check, from) {
            Some(f) => exists|i: int|
                from <= i < ops.len() && check(#[trigger] ops[i]) == Some(f) && forall|j: int|
                    from <= j < i ==> check(#[trigger] ops[j]) is None,
            None => forall|i: int| from <= i < ops.len() ==> check(#[trigger] ops[i]) is None,
        },
    decreases ops.len() - from,
{
    if from < ops.len() && check(ops[from]) is None {
        law_first_fault(ops, check, from + 1);
    } else if from < ops.len() {
        assert(check(ops[from]) == first_fault(ops, check, from));
    }
}

} // verus!
