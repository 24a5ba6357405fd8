//! Kernel launches, and the course of evaluating a sequence.

use vstd::arithmetic::mul::{lemma_mul_is_distributive_add_other_way, lemma_mul_nonnegative};
use vstd::prelude::*;
use vstd::string::StringExecFns;

use super::backend::{
    dtype_code, format_code, law_resident_names, matvec_dims, not_resident, ArcModel,
};
use super::runtime::KernelId;
use crate::backend_paged::page_table::overwritten;
use crate::gguf::TensorDescriptor;
use crate::graph::{
    run_op, weight_name, Arithmetic, LayerBuf, LayerOp, LayerPos, LayerState, LayerTensorNames,
    LayerWeight,
};
use crate::text::{dec, push_dec};
use crate::types::{fault, Ds4Error, Ds4ErrorKind, Ds4Result, Fault};

verus! {

// ---- Launches ----

/// An argument of a kernel.
#[derive(Debug, Clone, Copy, PartialEq, Eq, Structural)]
pub enum ArcArg {
    Buffer(LayerBuf),
    Weight(LayerWeight),
    TokenEmbedding,
    KCache,
    VCache,
    Number(i32),
    Token(u32),
    /// What the squares' mean is raised by in a norm.
    NormEpsilon,
    /// The base of the rotation's frequencies.
    RopeBase,
    /// The share of an expert.
    Scale,
}

/// A launch: the kernel, the number of its work items, and its arguments in order.
#[derive(Debug)]
pub struct ArcLaunch {
    pub kernel: KernelId,
    pub items: usize,
    pub args: Vec<ArcArg>,
}

/// A launch as a value.
pub struct LaunchView {
    pub kernel: KernelId,
    pub items: int,
    pub args: Seq<ArcArg>,
}

impl View for ArcLaunch {
    type V = LaunchView;

    open spec fn view(&self) -> LaunchView {
        LaunchView { kernel: self.kernel, items: self.items as int, args: self.args@ }
    }
}

/// The launch of an operation of a layer. `code` is the number of the weight's format.
pub open spec fn op_launch(op: LayerOp, hidden: usize, code: i32) -> LaunchView {
    LaunchView { kernel: op_kernel(op), items: op_items(op, hidden), args: op_args(op, code) }
}

/// The launch that adds one buffer to another, times the share of an expert.
pub open spec fn scaled_launch(to: LayerBuf, from: LayerBuf, n: usize) -> LaunchView {
    LaunchView {
        kernel: KernelId::AddScaledInplaceF32,
        items: n as int,
        args: seq![
            ArcArg::Buffer(to),
            ArcArg::Buffer(from),
            ArcArg::Scale,
            ArcArg::Number(n as i32),
        ],
    }
}

/// The kernel that runs an operation of a layer.
pub open spec fn op_kernel(op: LayerOp) -> KernelId {
    match op {
        LayerOp::RmsNorm { .. } => KernelId::RmsNormWeight,
        LayerOp::Matvec { .. } => KernelId::MatvecWeight,
        LayerOp::Rope { .. } => KernelId::RopeF32,
        LayerOp::StoreK { .. } => KernelId::StoreCacheF32,
        LayerOp::StoreV { .. } => KernelId::StoreCacheF32,
        LayerOp::Attention { .. } => KernelId::AttentionDecodeF32,
        LayerOp::Add { .. } => KernelId::AddInplaceF32,
        LayerOp::SiluProduct { .. } => KernelId::SiluProductF32,
    }
}

/// Number of work items of an operation: one per element that it computes, and one per pair of a
/// rotation.
pub open spec fn op_items(op: LayerOp, hidden: usize) -> int {
    match op {
        LayerOp::RmsNorm { from, weight, to, n } => n as int,
        LayerOp::Matvec { from, weight, to, in_dim, out_dim } => out_dim as int,
        LayerOp::Rope { buf, pos, n_heads, head_dim } => n_heads * (head_dim / 2),
        LayerOp::StoreK { start, n } => n as int,
        LayerOp::StoreV { start, n } => n as int,
        LayerOp::Attention { .. } => hidden as int,
        LayerOp::Add { to, from, n } => n as int,
        LayerOp::SiluProduct { gate, up, n } => n as int,
    }
}

/// The arguments of an operation. `code` is the number of the weight's format.
pub open spec fn op_args(op: LayerOp, code: i32) -> Seq<ArcArg> {
    match op {
        LayerOp::RmsNorm { from, weight, to, n } => seq![
            ArcArg::Buffer(from),
            ArcArg::Weight(weight),
            ArcArg::Number(code),
            ArcArg::Number(n as i32),
            ArcArg::NormEpsilon,
            ArcArg::Buffer(to),
        ],
        LayerOp::Matvec { from, weight, to, in_dim, out_dim } => seq![
            ArcArg::Buffer(from),
            ArcArg::Weight(weight),
            ArcArg::Number(code),
            ArcArg::Number(in_dim as i32),
            ArcArg::Number(out_dim as i32),
            ArcArg::Buffer(to),
        ],
        LayerOp::Rope { buf, pos, n_heads, head_dim } => seq![
            ArcArg::Buffer(buf),
            ArcArg::Number(pos as i32),
            ArcArg::Number(n_heads as i32),
            ArcArg::Number(head_dim as i32),
            ArcArg::RopeBase,
        ],
        LayerOp::StoreK { start, n } => seq![
            ArcArg::KCache,
            ArcArg::Buffer(LayerBuf::K),
            ArcArg::Number(start as i32),
            ArcArg::Number(n as i32),
        ],
        LayerOp::StoreV { start, n } => seq![
            ArcArg::VCache,
            ArcArg::Buffer(LayerBuf::V),
            ArcArg::Number(start as i32),
            ArcArg::Number(n as i32),
        ],
        LayerOp::Attention { prefix_len, prefix_values, n_heads, head_dim } => seq![
            ArcArg::Buffer(LayerBuf::Q),
            ArcArg::KCache,
            ArcArg::VCache,
            ArcArg::Number(prefix_len as i32),
            ArcArg::Number(n_heads as i32),
            ArcArg::Number(head_dim as i32),
            ArcArg::Buffer(LayerBuf::Attn),
        ],
        LayerOp::Add { to, from, n } => seq![
            ArcArg::Buffer(to),
            ArcArg::Buffer(from),
            ArcArg::Number(n as i32),
        ],
        LayerOp::SiluProduct { gate, up, n } => seq![
            ArcArg::Buffer(gate),
            ArcArg::Buffer(up),
            ArcArg::Number(n as i32),
        ],
    }
}

/// Lays out the launch of an operation of a layer. `code` is the number of the weight's format,
/// where the operation has a weight.
pub fn launch_op(op: LayerOp, hidden: usize, code: i32) -> (l: ArcLaunch)
    requires
        op_items(op, hidden) <= usize::MAX,
    ensures
        l@ == op_launch(op, hidden, code),
{
    let l: ArcLaunch = match op {
        LayerOp::RmsNorm { from, weight, to, n } => ArcLaunch {
            kernel: KernelId::RmsNormWeight,
            items: n,
            args: vec![
                ArcArg::Buffer(from),
                ArcArg::Weight(weight),
                ArcArg::Number(code),
                ArcArg::Number(n as i32),
                ArcArg::NormEpsilon,
                ArcArg::Buffer(to),
            ],
        },
        LayerOp::Matvec { from, weight, to, in_dim, out_dim } => ArcLaunch {
            kernel: KernelId::MatvecWeight,
            items: out_dim,
            args: vec![
                ArcArg::Buffer(from),
                ArcArg::Weight(weight),
                ArcArg::Number(code),
                ArcArg::Number(in_dim as i32),
                ArcArg::Number(out_dim as i32),
                ArcArg::Buffer(to),
            ],
        },
        LayerOp::Rope { buf, pos, n_heads, head_dim } => ArcLaunch {
            kernel: KernelId::RopeF32,
            items: n_heads * (head_dim / 2),
            args: vec![
                ArcArg::Buffer(buf),
                ArcArg::Number(pos as i32),
                ArcArg::Number(n_heads as i32),
                ArcArg::Number(head_dim as i32),
                ArcArg::RopeBase,
            ],
        },
        LayerOp::StoreK { start, n } => ArcLaunch {
            kernel: KernelId::StoreCacheF32,
            items: n,
            args: vec![
                ArcArg::KCache,
                ArcArg::Buffer(LayerBuf::K),
                ArcArg::Number(start as i32),
                ArcArg::Number(n as i32),
            ],
        },
        LayerOp::StoreV { start, n } => ArcLaunch {
            kernel: KernelId::StoreCacheF32,
            items: n,
            args: vec![
                ArcArg::VCache,
                ArcArg::Buffer(LayerBuf::V),
                ArcArg::Number(start as i32),
                ArcArg::Number(n as i32),
            ],
        },
        LayerOp::Attention { prefix_len, prefix_values, n_heads, head_dim } => ArcLaunch {
            kernel: KernelId::AttentionDecodeF32,
            items: hidden,
            args: vec![
                ArcArg::Buffer(LayerBuf::Q),
                ArcArg::KCache,
                ArcArg::VCache,
                ArcArg::Number(prefix_len as i32),
                ArcArg::Number(n_heads as i32),
                ArcArg::Number(head_dim as i32),
                ArcArg::Buffer(LayerBuf::Attn),
            ],
        },
        LayerOp::Add { to, from, n } => ArcLaunch {
            kernel: KernelId::AddInplaceF32,
            items: n,
            args: vec![ArcArg::Buffer(to), ArcArg::Buffer(from), ArcArg::Number(n as i32)],
        },
        LayerOp::SiluProduct { gate, up, n } => ArcLaunch {
            kernel: KernelId::SiluProductF32,
            items: n,
            args: vec![ArcArg::Buffer(gate), ArcArg::Buffer(up), ArcArg::Number(n as i32)],
        },
    };
    assert(l.args@ =~= op_args(op, code));
    l
}

/// Lays out adding the result of an expert, times its share.
pub fn launch_add_scaled(to: LayerBuf, from: LayerBuf, n: usize) -> (l: ArcLaunch)
    ensures
        l@ == scaled_launch(to, from, n),
{
    let l = ArcLaunch {
        kernel: KernelId::AddScaledInplaceF32,
        items: n,
        args: vec![
            ArcArg::Buffer(to),
            ArcArg::Buffer(from),
            ArcArg::Scale,
            ArcArg::Number(n as i32),
        ],
    };
    assert(l.args@ =~= scaled_launch(to, from, n).args);
    l
}

impl ArcModel {
    /// What stands against launching an operation of a layer: its weight, then the weight's shape.
    pub open spec fn launch_fault(self, names: LayerTensorNames, op: LayerOp) -> Option<Fault> {
        let known = self.op_fault(names, op);
        if known is Some {
            known
        } else {
            match op {
                LayerOp::Matvec { from, weight, to, in_dim, out_dim } => {
                    let name = weight_name(names, weight);
                    let d = self.resident(name).unwrap().dims@;
                    if d[0] != in_dim || d[1] != out_dim {
                        fault(
                            Ds4ErrorKind::Model,
                            name + " matvec shape mismatch: got "@ + dec(d[0] as nat) + "x"@ + dec(
                                d[1] as nat,
                            ) + ", expected "@ + dec(in_dim as nat) + "x"@ + dec(out_dim as nat),
                        )
                    } else {
                        None
                    }
                },
                _ => None,
            }
        }
    }

    /// The number of the format of an operation's weight; 0 where it has none.
    pub open spec fn op_code(self, names: LayerTensorNames, op: LayerOp) -> i32 {
        match op {
            LayerOp::RmsNorm { from, weight, to, n } => format_code(
                self.resident(weight_name(names, weight)).unwrap().dtype,
            ).unwrap(),
            LayerOp::Matvec { from, weight, to, in_dim, out_dim } => format_code(
                self.resident(weight_name(names, weight)).unwrap().dtype,
            ).unwrap(),
            _ => 0,
        }
    }

    fn weight_code(&self, name: &str) -> (r: Ds4Result<i32>)
        ensures
            match self.resident(name@) {
                Some(d) => r matches Ok(c) && format_code(d.dtype) == Some(c),
                None => r matches Err(e) && (not_resident(name@) matches Some(f)
                    && e.says(f)),
            },
    {
        let d: &TensorDescriptor = self.tensor(name)?;
        proof {
            law_resident_names(self.descriptors@, self.spec.block_kind, name@);
        }
        match dtype_code(d.dtype) {
            Some(c) => Ok(c),
            None => Ok(0),
        }
    }

    /// Lays out the launch of an operation of a layer on the tensors of the device.
    pub fn launch(&self, names: &LayerTensorNames, op: LayerOp) -> (r: Ds4Result<ArcLaunch>)
        requires
            op_items(op, self.spec.dims.hidden) <= usize::MAX,
        ensures
            match self.launch_fault(*names, op) {
                Some(f) => r matches Err(e) && e.says(f),
                None => {
                    &&& r matches Ok(l)
                    &&& l@ == op_launch(op, self.spec.dims.hidden, self.op_code(*names, op))
                },
            },
    {
        let code: i32 = match op {
            LayerOp::RmsNorm { from, weight, to, n } => self.weight_code(names.weight(weight))?,
            LayerOp::Matvec { from, weight, to, in_dim, out_dim } => {
                let name: &str = names.weight(weight);
                let d: &TensorDescriptor = self.tensor(name)?;
                let (rows, cols): (usize, usize) = matvec_dims(d, name)?;
                if rows != in_dim || cols != out_dim {
                    let mut m: String = String::from_str(name);
                    m.append(" matvec shape mismatch: got ");
                    push_dec(&mut m, rows as u64);
                    m.append("x");
                    push_dec(&mut m, cols as u64);
                    m.append(", expected ");
                    push_dec(&mut m, in_dim as u64);
                    m.append("x");
                    push_dec(&mut m, out_dim as u64);
                    return Err(Ds4Error::new(Ds4ErrorKind::Model, m));
                }
                self.weight_code(name)?
            },
            _ => 0,
        };
        Ok(launch_op(op, self.spec.dims.hidden, code))
    }

    /// Lays out taking the embedding of a token.
    pub fn launch_embedding(&self, token: u32) -> (r: Ds4Result<ArcLaunch>)
        ensures
            match self.embedding_fault(token) {
                Some(f) => r matches Err(e) && e.says(f),
                None => {
                    let d = self.resident(self.spec.token_embedding@).unwrap();
                    &&& r matches Ok(l)
                    &&& l.kernel == KernelId::EmbeddingWeight
                    &&& l.items == self.spec.dims.hidden
                    &&& l.args@ == seq![
                        ArcArg::TokenEmbedding,
                        ArcArg::Number(format_code(d.dtype).unwrap()),
                        ArcArg::Token(token),
                        ArcArg::Number(self.spec.dims.hidden as i32),
                        ArcArg::Buffer(LayerBuf::X),
                    ]
                },
            },
    {
        self.check_embedding(token)?;
        let code: i32 = self.weight_code(self.spec.token_embedding.as_str())?;
        let l = ArcLaunch {
            kernel: KernelId::EmbeddingWeight,
            items: self.spec.dims.hidden,
            args: vec![
                ArcArg::TokenEmbedding,
                ArcArg::Number(code),
                ArcArg::Token(token),
                ArcArg::Number(self.spec.dims.hidden as i32),
                ArcArg::Buffer(LayerBuf::X),
            ],
        };
        assert(l.args@ =~= seq![
            ArcArg::TokenEmbedding,
            ArcArg::Number(code),
            ArcArg::Token(token),
            ArcArg::Number(self.spec.dims.hidden as i32),
            ArcArg::Buffer(LayerBuf::X),
        ]);
        Ok(l)
    }

    // ---- Sequences ----

    /// What stands against evaluating a sequence, before anything is launched.
    pub open spec fn sequence_fault(self, n_tokens: usize, out_len: usize) -> Option<Fault> {
        if n_tokens == 0 {
            fault(Ds4ErrorKind::InvalidArgument, "token sequence is empty"@)
        } else if out_len < self.spec.dims.vocab {
            fault(
                Ds4ErrorKind::InvalidArgument,
                "logit buffer too small: "@ + dec(out_len as nat) + " < "@ + dec(
                    self.spec.dims.vocab as nat,
                ),
            )
        } else {
            None
        }
    }

    /// Starts the evaluation of a sequence: the caches that it needs, and its first step. Each
    /// step that fails ends the evaluation with its error.
    pub fn compute_sequence_logits(&self, n_tokens: usize, out_len: usize) -> (r: Ds4Result<
        SequencePlan,
    >)
        requires
            n_tokens * self.spec.dims.hidden <= usize::MAX,
        ensures
            match self.sequence_fault(n_tokens, out_len) {
                Some(f) => r matches Err(e) && e.says(f),
                None => {
                    &&& r matches Ok(p)
                    &&& p.n_tokens == n_tokens
                    &&& p.layers == self.spec.dims.layers
                    &&& p.cache_len == n_tokens * self.spec.dims.hidden
                    &&& p.step == p.step_at(0)
                },
            },
    {
        if n_tokens == 0 {
            return Err(
                Ds4Error::new(
                    Ds4ErrorKind::InvalidArgument,
                    String::from_str("token sequence is empty"),
                ),
            );
        }
        if out_len < self.spec.dims.vocab {
            let mut m: String = String::from_str("logit buffer too small: ");
            push_dec(&mut m, out_len as u64);
            m.append(" < ");
            push_dec(&mut m, self.spec.dims.vocab as u64);
            return Err(Ds4Error::new(Ds4ErrorKind::InvalidArgument, m));
        }
        Ok(
            SequencePlan {
                n_tokens,
                layers: self.spec.dims.layers,
                cache_len: n_tokens * self.spec.dims.hidden,
                step: SequenceStep::Embed { pos: 0 },
            },
        )
    }
}

/// A step of evaluating a sequence.
#[derive(Debug, Clone, Copy, PartialEq, Eq, Structural)]
pub enum SequenceStep {
    /// The hidden state becomes the embedding of the token at this position.
    Embed { pos: usize },
    /// The hidden state goes through a layer.
    Layer { pos: usize, layer: usize },
    /// The hidden state of the last token goes through the output head.
    Head,
    Done,
}

/// The evaluation of a sequence: its size, the elements of each of the two caches of a layer, and
/// the step it is at.
#[derive(Debug, Clone, Copy, PartialEq, Eq, Structural)]
pub struct SequencePlan {
    pub n_tokens: usize,
    pub layers: usize,
    pub cache_len: usize,
    pub step: SequenceStep,
}

/// The step after the last layer of the token at `pos`.
pub open spec fn after_token(pos: int, n_tokens: usize) -> SequenceStep {
    if pos + 1 < n_tokens {
        SequenceStep::Embed { pos: (pos + 1) as usize }
    } else {
        SequenceStep::Head
    }
}

/// The step that follows a step.
pub open spec fn step_after(step: SequenceStep, n_tokens: usize, layers: usize) -> SequenceStep {
    match step {
        SequenceStep::Embed { pos } => if layers > 0 {
            SequenceStep::Layer { pos, layer: 0 }
        } else {
            after_token(pos as int, n_tokens)
        },
        SequenceStep::Layer { pos, layer } => if layer + 1 < layers {
            SequenceStep::Layer { pos, layer: (layer + 1) as usize }
        } else {
            after_token(pos as int, n_tokens)
        },
        SequenceStep::Head => SequenceStep::Done,
        SequenceStep::Done => SequenceStep::Done,
    }
}

impl SequencePlan {
    /// The step that is reached after `k` steps.
    pub open spec fn step_at(self, k: nat) -> SequenceStep
        decreases k,
    {
        if k == 0 {
            SequenceStep::Embed { pos: 0 }
        } else {
            step_after(self.step_at((k - 1) as nat), self.n_tokens, self.layers)
        }
    }

    /// Goes to the next step.
    pub fn advance(&mut self)
        ensures
            final(self).n_tokens == old(self).n_tokens,
            final(self).layers == old(self).layers,
            final(self).cache_len == old(self).cache_len,
            final(self).step == step_after(old(self).step, old(self).n_tokens, old(self).layers),
    {
        let next: SequenceStep = match self.step {
            SequenceStep::Embed { pos } => if self.layers > 0 {
                SequenceStep::Layer { pos, layer: 0 }
            } else {
                self.next_token(pos)
            },
            SequenceStep::Layer { pos, layer } => if layer < self.layers && layer + 1
                < self.layers {
                SequenceStep::Layer { pos, layer: layer + 1 }
            } else {
                self.next_token(pos)
            },
            SequenceStep::Head => SequenceStep::Done,
            SequenceStep::Done => SequenceStep::Done,
        };
        self.step = next;
    }

    fn next_token(&self, pos: usize) -> (s: SequenceStep)
        ensures
            s == after_token(pos as int, self.n_tokens),
    {
        if pos < self.n_tokens && pos + 1 < self.n_tokens {
            SequenceStep::Embed { pos: pos + 1 }
        } else {
            SequenceStep::Head
        }
    }

    /// Where the token at a position stands in a layer: each token attends to all before it and to
    /// itself.
    pub fn layer_pos(pos: usize) -> (at: LayerPos)
        requires
            pos < usize::MAX,
        ensures
            at.rope_pos == pos,
            at.cache_pos == pos,
            at.prefix_len == pos + 1,
    {
        LayerPos { rope_pos: pos, cache_pos: pos, prefix_len: pos + 1 }
    }
}

proof fn lemma_token_steps(p: SequencePlan, pos: nat, layer: nat)
    requires
        pos < p.n_tokens,
        layer < p.layers,
        p.step_at(pos * (p.layers as nat + 1)) == (SequenceStep::Embed { pos: pos as usize }),
    ensures
        p.step_at(pos * (p.layers as nat + 1) + 1 + layer) == (SequenceStep::Layer {
            pos: pos as usize,
            layer: layer as usize,
        }),
    decreases layer,
{
    lemma_mul_nonnegative(pos as int, p.layers as int + 1);
    if layer > 0 {
        lemma_token_steps(p, pos, (layer - 1) as nat);
    }
    let k = pos * (p.layers as nat + 1) + 1 + layer;
    assert(p.step_at(k) == step_after(p.step_at((k - 1) as nat), p.n_tokens, p.layers));
}

proof fn lemma_token_start(p: SequencePlan, pos: nat)
    requires
        p.n_tokens > 0,
        pos <= p.n_tokens,
    ensures
        p.step_at(pos * (p.layers as nat + 1)) == if pos < p.n_tokens {
            SequenceStep::Embed { pos: pos as usize }
        } else {
            SequenceStep::Head
        },
    decreases pos,
{
    let width = p.layers as nat + 1;
    if pos > 0 {
        let before = (pos - 1) as nat;
        lemma_token_start(p, before);
        lemma_mul_nonnegative(before as int, width as int);
        lemma_mul_is_distributive_add_other_way(width as int, before as int, 1);
        assert(pos * width == before * width + width);
        let k = pos * width;
        if p.layers > 0 {
            lemma_token_steps(p, before, (p.layers - 1) as nat);
            assert((k - 1) as nat == before * width + 1 + (p.layers - 1) as nat);
        }
        assert(p.step_at(k) == step_after(p.step_at((k - 1) as nat), p.n_tokens, p.layers));
    } else {
        assert(0 * width == 0) by (nonlinear_arith);
    }
}

/// A sequence is evaluated token by token: each token is embedded and then goes through the layers
/// in order, and the output head comes once, after the last token.
pub proof fn law_sequence_steps(p: SequencePlan, pos: nat, layer: nat)
    requires
        pos < p.n_tokens,
        layer < p.layers,
    ensures
        p.step_at(pos * (p.layers as nat + 1)) == (SequenceStep::Embed { pos: pos as usize }),
        p.step_at(pos * (p.layers as nat + 1) + 1 + layer) == (SequenceStep::Layer {
            pos: pos as usize,
            layer: layer as usize,
        }),
        p.step_at(p.n_tokens as nat * (p.layers as nat + 1)) == SequenceStep::Head,
        p.step_at(p.n_tokens as nat * (p.layers as nat + 1) + 1) == SequenceStep::Done,
{
    lemma_token_start(p, pos);
    lemma_token_steps(p, pos, layer);
    lemma_token_start(p, p.n_tokens as nat);
    lemma_mul_nonnegative(p.n_tokens as int, p.layers as int + 1);
    let k = p.n_tokens as nat * (p.layers as nat + 1) + 1;
    assert(p.step_at(k) == step_after(p.step_at((k - 1) as nat), p.n_tokens, p.layers));
}

// ---- Rows ----

/// The bytes of a row of `width` elements, as where they begin and where they end.
pub fn row_span(row: usize, width: usize) -> (r: (usize, usize))
    requires
        (row + 1) * width * 4 <= usize::MAX,
    ensures
        r.0 == row * width * 4,
        r.1 == (row + 1) * width * 4,
{
    proof {
        assert(row * width * 4 + width * 4 == (row + 1) * width * 4) by (nonlinear_arith);
        assert(0 <= row * width <= row * width * 4) by (nonlinear_arith)
            requires
                row >= 0,
                width >= 0,
        ;
        assert(0 <= width * 4);
    }
    let start: usize = row * width * 4;
    (start, start + width * 4)
}

/// The bytes of two rows do not overlap, and each row begins where the one before it ends.
pub proof fn law_rows_adjoin(row: nat, other: nat, width: nat)
    ensures
        row < other ==> (row + 1) * width * 4 <= other * width * 4,
        (row + 1) * width * 4 - row * width * 4 == width * 4,
{
    assert((row + 1) * width * 4 - row * width * 4 == width * 4) by (nonlinear_arith);
    if row < other {
        assert((row + 1) * width * 4 <= other * width * 4) by (nonlinear_arith)
            requires
                row + 1 <= other,
        ;
    }
}

// ---- What launches come to ----

/// The buffer that an argument is.
pub open spec fn arg_buffer(arg: ArcArg) -> LayerBuf {
    match arg {
        ArcArg::Buffer(b) => b,
        _ => LayerBuf::X,
    }
}

/// The weight that an argument is.
pub open spec fn arg_weight(arg: ArcArg) -> LayerWeight {
    match arg {
        ArcArg::Weight(w) => w,
        _ => LayerWeight::AttnNorm,
    }
}

/// The size that an argument is.
pub open spec fn arg_size(arg: ArcArg) -> usize {
    match arg {
        ArcArg::Number(n) => n as usize,
        _ => 0,
    }
}

/// The state with another buffer.
pub open spec fn with_buffer(s: LayerState, to: ArcArg, values: Seq<u32>) -> LayerState {
    LayerState { bufs: s.bufs.insert(arg_buffer(to), values), ..s }
}

/// What the kernel of a launch makes of the state, as its parameters stand in its source.
pub open spec fn run_launch(a: Arithmetic, s: LayerState, l: LaunchView) -> LayerState {
    let p = l.args;
    let b = |i: int| s.bufs[arg_buffer(p[i])];
    let n = |i: int| arg_size(p[i]);
    match l.kernel {
        KernelId::RmsNormWeight => with_buffer(s, p[5], (a.norm)(b(0), arg_weight(p[1]), n(3))),
        KernelId::MatvecWeight => with_buffer(
            s,
            p[5],
            (a.product)(b(0), arg_weight(p[1]), n(3), n(4)),
        ),
        KernelId::RopeF32 => with_buffer(s, p[0], (a.rotate)(b(0), n(1), n(2), n(3))),
        KernelId::StoreCacheF32 => if p[0] == ArcArg::KCache {
            LayerState { k: overwritten(s.k, n(2) as int, b(1).take(n(3) as int)), ..s }
        } else {
            LayerState { v: overwritten(s.v, n(2) as int, b(1).take(n(3) as int)), ..s }
        },
        KernelId::AttentionDecodeF32 => with_buffer(
            s,
            p[6],
            (a.attend)(
                b(0),
                (if p[1] == ArcArg::KCache {
                    s.k
                } else {
                    s.v
                }).take(n(3) * n(4) * n(5)),
                (if p[2] == ArcArg::VCache {
                    s.v
                } else {
                    s.k
                }).take(n(3) * n(4) * n(5)),
                n(3),
                n(4),
                n(5),
            ),
        ),
        KernelId::AddInplaceF32 => with_buffer(s, p[0], (a.sum)(b(0), b(1), n(2))),
        KernelId::AddScaledInplaceF32 => with_buffer(s, p[0], (a.scaled)(b(0), b(1), n(3))),
        KernelId::SiluProductF32 => with_buffer(s, p[0], (a.gate)(b(0), b(1), n(2))),
        _ => s,
    }
}

/// The sizes of an operation can be handed to a kernel.
pub open spec fn sizes_fit(op: LayerOp) -> bool {
    match op {
        LayerOp::RmsNorm { from, weight, to, n } => n <= i32::MAX,
        LayerOp::Matvec { from, weight, to, in_dim, out_dim } => in_dim <= i32::MAX && out_dim
            <= i32::MAX,
        LayerOp::Rope { buf, pos, n_heads, head_dim } => pos <= i32::MAX && n_heads <= i32::MAX
            && head_dim <= i32::MAX,
        LayerOp::StoreK { start, n } => start <= i32::MAX && n <= i32::MAX,
        LayerOp::StoreV { start, n } => start <= i32::MAX && n <= i32::MAX,
        LayerOp::Attention { prefix_len, prefix_values, n_heads, head_dim } => prefix_len
            <= i32::MAX && n_heads <= i32::MAX && head_dim <= i32::MAX && prefix_values == prefix_len
            * n_heads * head_dim,
        LayerOp::Add { to, from, n } => n <= i32::MAX,
        LayerOp::SiluProduct { gate, up, n } => n <= i32::MAX,
    }
}

/// The launch of an operation does what the operation says, whatever the arithmetic is; where the
/// operation has a weight, the number of the weight's format follows the weight; and there is a
/// work item for each element of the result, or for each pair that is rotated.
pub proof fn law_launch_does_op(a: Arithmetic, s: LayerState, op: LayerOp, hidden: usize, code: i32)
    requires
        sizes_fit(op),
    ensures
        ({
            let l = op_launch(op, hidden, code);
            &&& run_launch(a, s, l) == run_op(a, s, op)
            &&& op is RmsNorm || op is Matvec ==> l.args[2] == ArcArg::Number(code)
            &&& op is RmsNorm ==> l.args[4] == ArcArg::NormEpsilon
            &&& op is Rope ==> l.args[4] == ArcArg::RopeBase
            &&& op matches LayerOp::Matvec { from, weight, to, in_dim, out_dim } ==> l.items
                == out_dim
            &&& op matches LayerOp::Rope { buf, pos, n_heads, head_dim } ==> l.items == n_heads * (
            head_dim / 2)
            &&& op matches LayerOp::Add { to, from, n } ==> l.items == n
            &&& op matches LayerOp::SiluProduct { gate, up, n } ==> l.items == n
            &&& op is Attention ==> l.items == hidden
        }),
{
    let l = op_launch(op, hidden, code);
    match op {
        LayerOp::RmsNorm { from, weight, to, n } => {
            assert((n as i32) as usize == n);
        },
        LayerOp::Attention { prefix_len, prefix_values, n_heads, head_dim } => {
            assert((prefix_len as i32) as usize == prefix_len);
            assert((n_heads as i32) as usize == n_heads);
            assert((head_dim as i32) as usize == head_dim);
        },
        _ => {},
    }
}

} // verus!
