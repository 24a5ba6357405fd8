//! Arc model: which tensors stay on the device, and what an evaluation launches.
//!
//! Device memory and launches are the caller's. What is launched, on which sizes, and what is
//! refused before a launch is settled here.

use vstd::prelude::*;
use vstd::string::{StringExecFns, StringSliceAdditionalSpecFns};
use vstd::utf8::encode_utf8;

use super::packed::{
    data_bytes, elements_fault, is_expert_matrix, matrix_dims, packed_f32_expert_slice,
    packed_quant_expert_slice, quant_slice_fault, without_axis,
};
use crate::engine::ModelDims;
use crate::float_bits::{total_key, total_order};
use crate::gguf::{
    descriptor_of, dtype_name, elements_countable, find_descriptor, GgufDType, GgufMetadata,
    TensorDescriptor,
};
use crate::graph::{
    attended, attention_kernels, attention_ops, bad_shape, bad_shape_error, dense_ops, fed_forward,
    law_layer_value, run_op, run_ops, weight_name, Arithmetic, ExpertTensorLayout, FfnTensorNames,
    LayerBuf, LayerOp, LayerPos, LayerState, LayerTensorNames, LayerWeight, ModelSpec,
    TransformerBlockKind,
};
use crate::parse::{dot_from, find_dot, lemma_dec_value, parse_size, parsed_size};
use crate::search::{
    has_part, law_replaced, never_begins, replace_all, replaced, stands_at, text_contains,
};
use crate::slices::{bytes_eq, str_eq};
use crate::table::NameTable;
use crate::text::{dec, dec_list, push_dec, push_dec_list};
use crate::types::{fault, Ds4Error, Ds4ErrorKind, Ds4QuantKind, Ds4Result, Fault};

verus! {

// ---- Formats and names ----

/// The number under which the kernels know a storage format.
pub open spec fn format_code(d: GgufDType) -> Option<i32> {
    match d {
        GgufDType::F32 => Some(0),
        GgufDType::F16 => Some(1),
        GgufDType::Q8_0 => Some(2),
        GgufDType::Q4_K => Some(3),
        GgufDType::Q3_K => Some(4),
        GgufDType::Q2_K => Some(5),
        _ => None,
    }
}

/// The number under which the kernels know a storage format.
pub fn dtype_code(d: GgufDType) -> (r: Option<i32>)
    ensures
        r == format_code(d),
{
    match d {
        GgufDType::F32 => Some(0),
        GgufDType::F16 => Some(1),
        GgufDType::Q8_0 => Some(2),
        GgufDType::Q4_K => Some(3),
        GgufDType::Q3_K => Some(4),
        GgufDType::Q2_K => Some(5),
        _ => None,
    }
}

/// The parts of a name between its dots.
pub open spec fn dotted(s: Seq<u8>, from: int) -> Seq<Seq<u8>>
    decreases s.len() - from,
{
    match dot_from(s, from) {
        Some(k) => if from <= k < s.len() {
            seq![s.subrange(from, k)] + dotted(s, k + 1)
        } else {
            seq![s.subrange(from, s.len() as int)]
        },
        None => seq![s.subrange(from, s.len() as int)],
    }
}

/// The name belongs to a weight of one expert or of all experts.
pub open spec fn routed_name(s: Seq<u8>) -> bool {
    has_part(s, encode_utf8("_exps.weight"@)) || (stands_at(s, encode_utf8("blk."@), 0)
        && routed_parts(dotted(s, encode_utf8("blk."@).len() as int)))
}

/// Five parts follow the leading one of a name, and the second to fourth of them are a matrix, a
/// number and `weight`. The first and the last may be anything.
pub open spec fn routed_parts(parts: Seq<Seq<u8>>) -> bool {
    &&& parts.len() == 5
    &&& (parts[1] == encode_utf8("ffn_gate"@) || parts[1] == encode_utf8("ffn_up"@) || parts[1]
        == encode_utf8("ffn_down"@))
    &&& parsed_size(parts[2]) is Some
    &&& parts[3] == encode_utf8("weight"@)
}

fn part_eq(s: &[u8], from: usize, to: usize, text: &str) -> (r: bool)
    requires
        from <= to <= s@.len(),
    ensures
        r == (s@.subrange(from as int, to as int) == text.spec_bytes()),
{
    let part: Vec<u8> = crate::slices::copy_bytes(s, from, to);
    bytes_eq(part.as_slice(), text.as_bytes())
}

fn starts_blk(name: &str) -> (r: bool)
    ensures
        r == stands_at(name.spec_bytes(), encode_utf8("blk."@), 0),
{
    let s: &[u8] = name.as_bytes();
    let pat: &'static str = "blk.";
    let n: usize = pat.as_bytes().len();
    if s.len() < n {
        return false;
    }
    part_eq(s, 0, n, pat)
}

/// `true` if the name is taken for that of a weight of one expert or of all experts.
pub fn is_routed_expert_tensor(name: &str) -> (r: bool)
    ensures
        r == routed_name(encode_utf8(name@)),
{
    if text_contains(name, "_exps.weight") {
        return true;
    }
    if !starts_blk(name) {
        return false;
    }
    let s: &[u8] = name.as_bytes();
    assert(s@.len() == s.len());
    let pat: &'static str = "blk.";
    let p0: usize = pat.as_bytes().len();
    let ghost parts = dotted(s@, p0 as int);
    proof {
        reveal_with_fuel(dotted, 6);
    }
    let d0: usize = match find_dot(s, p0) {
        Some(k) => k,
        None => return false,
    };
    let d1: usize = match find_dot(s, d0 + 1) {
        Some(k) => k,
        None => return false,
    };
    let d2: usize = match find_dot(s, d1 + 1) {
        Some(k) => k,
        None => return false,
    };
    let d3: usize = match find_dot(s, d2 + 1) {
        Some(k) => k,
        None => return false,
    };
    if find_dot(s, d3 + 1).is_some() {
        proof {
            lemma_dotted_len(s@, d3 + 1);
        }
        return false;
    }
    let kind: bool = part_eq(s, d0 + 1, d1, "ffn_gate") || part_eq(s, d0 + 1, d1, "ffn_up")
        || part_eq(s, d0 + 1, d1, "ffn_down");
    kind && parse_size(s, d1 + 1, d2).is_some() && part_eq(s, d2 + 1, d3, "weight")
}

proof fn lemma_dotted_len(s: Seq<u8>, from: int)
    ensures
        dotted(s, from).len() >= 1,
        dot_from(s, from) matches Some(k) ==> (from <= k < s.len() ==> dotted(s, from).len() >= 2),
    decreases s.len() - from,
{
    match dot_from(s, from) {
        Some(k) => {
            if from <= k < s.len() {
                lemma_dotted_len(s, k + 1);
            }
        },
        None => {},
    }
}

/// A pattern with the layer and the expert put in.
pub open spec fn expert_text(pattern: Seq<char>, layer: usize, expert: usize) -> Seq<char> {
    replaced(
        replaced(pattern, "{layer}"@, dec(layer as nat)),
        "{expert}"@,
        dec(expert as nat),
    )
}

fn number_text(n: usize) -> (r: String)
    ensures
        r@ == dec(n as nat),
{
    let mut s: String = String::from_str("");
    proof {
        reveal_strlit("");
    }
    push_dec(&mut s, n as u64);
    assert(s@ =~= dec(n as nat));
    s
}

/// Puts the layer into a pattern.
pub fn render_layer_pattern(pattern: &str, layer: usize) -> (r: String)
    ensures
        r@ == replaced(pattern@, "{layer}"@, dec(layer as nat)),
{
    proof {
        reveal_strlit("{layer}");
    }
    let n: String = number_text(layer);
    replace_all(pattern, "{layer}", n.as_str())
}

/// Puts the layer and the expert into a pattern.
pub fn render_expert_pattern(pattern: &str, layer: usize, expert: usize) -> (r: String)
    ensures
        r@ == expert_text(pattern@, layer, expert),
{
    proof {
        reveal_strlit("{expert}");
    }
    let with_layer: String = render_layer_pattern(pattern, layer);
    let n: String = number_text(expert);
    replace_all(with_layer.as_str(), "{expert}", n.as_str())
}

// ---- The backend ----

/// Handle of the Arc backend.
#[derive(Debug, Clone, Copy, PartialEq, Eq, Structural)]
pub struct ArcBackend {}

/// The memory that a context takes, held at the largest number that can be counted.
pub open spec fn device_memory(ctx_size: usize, prefill_chunk: usize) -> nat {
    let ctx: nat = if ctx_size > 0 {
        ctx_size as nat
    } else {
        1
    };
    let prefill: nat = if prefill_chunk > 0 {
        prefill_chunk as nat
    } else {
        1
    };
    if ctx * 512 + prefill * 256 + 4096 <= u64::MAX {
        ctx * 512 + prefill * 256 + 4096
    } else {
        u64::MAX as nat
    }
}

/// A larger context or prefill never takes less memory.
pub proof fn law_device_memory_grows(a: usize, b: usize, p: usize, q: usize)
    requires
        a <= b,
        p <= q,
    ensures
        0 < device_memory(a, p) <= device_memory(b, q),
{
}

/// The memory that a context takes.
pub fn estimate_device_memory(ctx_size: usize, prefill_chunk: usize) -> (n: u64)
    ensures
        n == device_memory(ctx_size, prefill_chunk),
{
    let ctx: u64 = if ctx_size > 0 {
        ctx_size as u64
    } else {
        1
    };
    let prefill: u64 = if prefill_chunk > 0 {
        prefill_chunk as u64
    } else {
        1
    };
    let by_ctx: u64 = match ctx.checked_mul(512) {
        Some(n) => n,
        None => u64::MAX,
    };
    let by_prefill: u64 = match prefill.checked_mul(256) {
        Some(n) => n,
        None => u64::MAX,
    };
    by_ctx.saturating_add(by_prefill).saturating_add(4096)
}

impl ArcBackend {
    /// A handle.
    pub fn new() -> (b: Self) {
        ArcBackend {  }
    }

    /// The name of the backend.
    pub fn name(&self) -> (r: &'static str)
        ensures
            r@ == "arc"@,
    {
        "arc"
    }

    /// The memory that a context takes.
    pub fn memory_estimate(ctx_size: usize, prefill_chunk: usize) -> (n: u64)
        ensures
            n == device_memory(ctx_size, prefill_chunk),
    {
        estimate_device_memory(ctx_size, prefill_chunk)
    }
}

impl Default for ArcBackend {
    fn default() -> (b: Self) {
        ArcBackend::new()
    }
}

// ---- The model ----

/// A model for the device: what the file says of it, and its tensors in the order of the file.
#[derive(Debug)]
pub struct ArcModel {
    pub spec: ModelSpec,
    pub metadata: GgufMetadata,
    pub descriptors: Vec<TensorDescriptor>,
}

/// The tensor stays on the device: its format is known to the kernels, and in a model with routed
/// experts it is not an expert's.
pub open spec fn uploaded(d: TensorDescriptor, kind: TransformerBlockKind) -> bool {
    format_code(d.dtype) is Some && (kind == TransformerBlockKind::Dense || !routed_name(
        encode_utf8(d.name@),
    ))
}

/// The tensor under a name that stays on the device: the last one in the file.
pub open spec fn resident_of(
    tensors: Seq<TensorDescriptor>,
    kind: TransformerBlockKind,
    name: Seq<char>,
) -> Option<TensorDescriptor>
    decreases tensors.len(),
{
    if tensors.len() == 0 {
        None
    } else if tensors.last().name@ == name && uploaded(tensors.last(), kind) {
        Some(tensors.last())
    } else {
        resident_of(tensors.drop_last(), kind, name)
    }
}

/// The names of the tensors that stay on the device.
pub open spec fn resident_names(tensors: Seq<TensorDescriptor>, kind: TransformerBlockKind) -> Set<
    Seq<char>,
>
    decreases tensors.len(),
{
    if tensors.len() == 0 {
        Set::empty()
    } else if uploaded(tensors.last(), kind) {
        resident_names(tensors.drop_last(), kind).insert(tensors.last().name@)
    } else {
        resident_names(tensors.drop_last(), kind)
    }
}

/// The names of all tensors.
pub open spec fn tensor_names(tensors: Seq<TensorDescriptor>) -> Set<Seq<char>>
    decreases tensors.len(),
{
    if tensors.len() == 0 {
        Set::empty()
    } else {
        tensor_names(tensors.drop_last()).insert(tensors.last().name@)
    }
}

/// A tensor is on the device exactly if its name is one of those that stay there.
pub proof fn law_resident_names(
    tensors: Seq<TensorDescriptor>,
    kind: TransformerBlockKind,
    name: Seq<char>,
)
    ensures
        resident_names(tensors, kind).contains(name) <==> resident_of(tensors, kind, name) is Some,
        resident_of(tensors, kind, name) matches Some(d) ==> d.name@ == name && uploaded(d, kind),
    decreases tensors.len(),
{
    if tensors.len() > 0 {
        law_resident_names(tensors.drop_last(), kind, name);
    }
}

/// The fault of a tensor that is not on the device.
pub open spec fn not_resident(name: Seq<char>) -> Option<Fault> {
    fault(Ds4ErrorKind::Model, "missing Arc tensor "@ + name)
}

/// What stands against a matrix of these dimensions.
pub open spec fn matrix_fault(dims: Seq<u32>, name: Seq<char>) -> Option<Fault> {
    if dims.len() != 2 {
        bad_shape(name, dims)
    } else {
        None
    }
}

/// The rows and columns of a matrix.
pub fn matvec_dims(desc: &TensorDescriptor, name: &str) -> (r: Ds4Result<(usize, usize)>)
    ensures
        match matrix_fault(desc.dims@, name@) {
            Some(f) => r matches Err(e) && e.says(f),
            None => r == Ok::<(usize, usize), Ds4Error>(
                (desc.dims@[0] as usize, desc.dims@[1] as usize),
            ),
        },
{
    if desc.dims.len() != 2 {
        return Err(bad_shape_error(name, &desc.dims));
    }
    Ok((desc.dims[0] as usize, desc.dims[1] as usize))
}

/// What stands against a gated feed-forward block with these matrices.
pub open spec fn gated_fault(
    gate: Seq<u32>,
    gate_name: Seq<char>,
    up: Seq<u32>,
    up_name: Seq<char>,
    down: Seq<u32>,
    down_name: Seq<char>,
) -> Option<Fault> {
    if gate.len() != 2 {
        bad_shape(gate_name, gate)
    } else if up.len() != 2 {
        bad_shape(up_name, up)
    } else if up[1] != gate[1] {
        fault(
            Ds4ErrorKind::Model,
            "FFN gate/up width mismatch: "@ + gate_name + "="@ + dec(gate[1] as nat) + ", "@
                + up_name + "="@ + dec(up[1] as nat),
        )
    } else if down.len() != 2 {
        bad_shape(down_name, down)
    } else if down[0] != gate[1] {
        fault(
            Ds4ErrorKind::Model,
            "FFN down input mismatch: "@ + down_name + " expects "@ + dec(down[0] as nat)
                + ", gate has "@ + dec(gate[1] as nat),
        )
    } else {
        None
    }
}

/// The kernels of a gated feed-forward block with these matrices, without what its result is added
/// to.
pub open spec fn gated_ops(gate: Seq<u32>, up: Seq<u32>, down: Seq<u32>) -> Seq<LayerOp> {
    seq![
        LayerOp::Matvec {
            from: LayerBuf::FfnIn,
            weight: LayerWeight::FfnGate,
            to: LayerBuf::Gate,
            in_dim: gate[0] as usize,
            out_dim: gate[1] as usize,
        },
        LayerOp::Matvec {
            from: LayerBuf::FfnIn,
            weight: LayerWeight::FfnUp,
            to: LayerBuf::Up,
            in_dim: up[0] as usize,
            out_dim: up[1] as usize,
        },
        LayerOp::SiluProduct { gate: LayerBuf::Gate, up: LayerBuf::Up, n: gate[1] as usize },
        LayerOp::Matvec {
            from: LayerBuf::Gate,
            weight: LayerWeight::FfnDown,
            to: LayerBuf::Down,
            in_dim: down[0] as usize,
            out_dim: down[1] as usize,
        },
    ]
}

/// Lays out a gated feed-forward block.
pub fn gated_ffn(
    gate: &TensorDescriptor,
    gate_name: &str,
    up: &TensorDescriptor,
    up_name: &str,
    down: &TensorDescriptor,
    down_name: &str,
) -> (r: Ds4Result<Vec<LayerOp>>)
    ensures
        match gated_fault(gate.dims@, gate_name@, up.dims@, up_name@, down.dims@, down_name@) {
            Some(f) => r matches Err(e) && e.says(f),
            None => r matches Ok(ops) && ops@ == gated_ops(gate.dims@, up.dims@, down.dims@),
        },
{
    let (gate_in, ffn): (usize, usize) = matvec_dims(gate, gate_name)?;
    let (up_in, up_out): (usize, usize) = matvec_dims(up, up_name)?;
    if up_out != ffn {
        let mut m: String = String::from_str("FFN gate/up width mismatch: ");
        m.append(gate_name);
        m.append("=");
        push_dec(&mut m, ffn as u64);
        m.append(", ");
        m.append(up_name);
        m.append("=");
        push_dec(&mut m, up_out as u64);
        return Err(Ds4Error::new(Ds4ErrorKind::Model, m));
    }
    let (down_in, down_out): (usize, usize) = matvec_dims(down, down_name)?;
    if down_in != ffn {
        let mut m: String = String::from_str("FFN down input mismatch: ");
        m.append(down_name);
        m.append(" expects ");
        push_dec(&mut m, down_in as u64);
        m.append(", gate has ");
        push_dec(&mut m, ffn as u64);
        return Err(Ds4Error::new(Ds4ErrorKind::Model, m));
    }
    let mut ops: Vec<LayerOp> = Vec::new();
    ops.push(
        LayerOp::Matvec {
            from: LayerBuf::FfnIn,
            weight: LayerWeight::FfnGate,
            to: LayerBuf::Gate,
            in_dim: gate_in,
            out_dim: ffn,
        },
    );
    ops.push(
        LayerOp::Matvec {
            from: LayerBuf::FfnIn,
            weight: LayerWeight::FfnUp,
            to: LayerBuf::Up,
            in_dim: up_in,
            out_dim: up_out,
        },
    );
    ops.push(LayerOp::SiluProduct { gate: LayerBuf::Gate, up: LayerBuf::Up, n: ffn });
    ops.push(
        LayerOp::Matvec {
            from: LayerBuf::Gate,
            weight: LayerWeight::FfnDown,
            to: LayerBuf::Down,
            in_dim: down_in,
            out_dim: down_out,
        },
    );
    assert(ops@ =~= gated_ops(gate.dims@, up.dims@, down.dims@));
    Ok(ops)
}

/// What a router comes to: the number of its logits, and how many experts are taken.
#[derive(Debug, Clone, Copy, PartialEq, Eq, Structural)]
pub struct RouterPlan {
    pub in_dim: usize,
    pub out_dim: usize,
    pub active: usize,
}

/// The names of the tensors of an expert.
#[derive(Debug)]
pub struct ExpertNames {
    pub gate: String,
    pub up: String,
    pub down: String,
    /// `true` if each tensor holds the weights of all experts.
    pub packed: bool,
}

/// A tensor cut out for one expert.
#[derive(Debug)]
pub struct ExpertTensor {
    pub descriptor: TensorDescriptor,
    pub bytes: Vec<u8>,
}

impl ArcModel {
    /// The tensor under a name that stays on the device.
    pub open spec fn resident(self, name: Seq<char>) -> Option<TensorDescriptor> {
        resident_of(self.descriptors@, self.spec.block_kind, name)
    }

    /// What stands against a matrix on the device.
    pub open spec fn weight_fault(self, name: Seq<char>) -> Option<Fault> {
        match self.resident(name) {
            None => not_resident(name),
            Some(d) => matrix_fault(d.dims@, name),
        }
    }

    /// What stands against a kernel of the attention block.
    pub open spec fn op_fault(self, names: LayerTensorNames, op: LayerOp) -> Option<Fault> {
        match op {
            LayerOp::RmsNorm { from, weight, to, n } => if self.resident(
                weight_name(names, weight),
            ) is Some {
                None
            } else {
                not_resident(weight_name(names, weight))
            },
            LayerOp::Matvec { from, weight, to, in_dim, out_dim } => self.weight_fault(
                weight_name(names, weight),
            ),
            _ => None,
        }
    }

    /// A kernel of the attention block with the sizes that the matrix on the device has.
    pub open spec fn sized(self, names: LayerTensorNames, op: LayerOp) -> LayerOp {
        match op {
            LayerOp::Matvec { from, weight, to, in_dim, out_dim } => {
                let d = self.resident(weight_name(names, weight)).unwrap().dims@;
                LayerOp::Matvec {
                    from,
                    weight,
                    to,
                    in_dim: d[0] as usize,
                    out_dim: d[1] as usize,
                }
            },
            other => other,
        }
    }

    /// The first fault of the attention block, from kernel `from` on.
    pub open spec fn attention_block_fault(
        self,
        names: LayerTensorNames,
        ops: Seq<LayerOp>,
        from: int,
    ) -> Option<Fault>
        decreases ops.len() - from,
    {
        if from < 0 || from >= ops.len() {
            None
        } else if self.op_fault(names, ops[from]) is Some {
            self.op_fault(names, ops[from])
        } else {
            self.attention_block_fault(names, ops, from + 1)
        }
    }

    /// What stands against a gated feed-forward block of tensors on the device.
    pub open spec fn resident_ffn_fault(
        self,
        gate: Seq<char>,
        up: Seq<char>,
        down: Seq<char>,
    ) -> Option<Fault> {
        if self.resident(gate) is None {
            not_resident(gate)
        } else if self.resident(up) is None {
            not_resident(up)
        } else if self.resident(down) is None {
            not_resident(down)
        } else {
            gated_fault(
                self.resident(gate).unwrap().dims@,
                gate,
                self.resident(up).unwrap().dims@,
                up,
                self.resident(down).unwrap().dims@,
                down,
            )
        }
    }

    /// The kernels of a gated feed-forward block of tensors on the device.
    pub open spec fn resident_ffn_ops(self, gate: Seq<char>, up: Seq<char>, down: Seq<char>) -> Seq<
        LayerOp,
    > {
        gated_ops(
            self.resident(gate).unwrap().dims@,
            self.resident(up).unwrap().dims@,
            self.resident(down).unwrap().dims@,
        )
    }

    /// A model with the tensors of a file.
    pub fn new(spec: ModelSpec, metadata: GgufMetadata, descriptors: Vec<TensorDescriptor>) -> (m:
        Self)
        ensures
            m.spec == spec,
            m.metadata == metadata,
            m.descriptors == descriptors,
    {
        ArcModel { spec, metadata, descriptors }
    }

    /// `true` if a tensor is to be put on the device when the model is loaded.
    pub fn stays_on_device(&self, d: &TensorDescriptor) -> (r: bool)
        ensures
            r == uploaded(*d, self.spec.block_kind),
    {
        if dtype_code(d.dtype).is_none() {
            return false;
        }
        self.spec.block_kind == TransformerBlockKind::Dense || !is_routed_expert_tensor(
            d.name.as_str(),
        )
    }

    fn find_resident(&self, name: &str) -> (r: Option<&TensorDescriptor>)
        ensures
            match r {
                Some(d) => self.resident(name@) == Some(*d),
                None => self.resident(name@) is None,
            },
    {
        let mut i: usize = self.descriptors.len();
        assert(self.descriptors@.take(i as int) =~= self.descriptors@);
        while i > 0
            invariant
                i <= self.descriptors@.len(),
                resident_of(self.descriptors@.take(i as int), self.spec.block_kind, name@)
                    == self.resident(name@),
            decreases i,
        {
            proof {
                let part = self.descriptors@.take(i as int);
                assert(part.last() == self.descriptors@[i - 1]);
                assert(part.drop_last() =~= self.descriptors@.take(i - 1));
            }
            i -= 1;
            if str_eq(self.descriptors[i].name.as_str(), name) && self.stays_on_device(
                &self.descriptors[i],
            ) {
                return Some(&self.descriptors[i]);
            }
        }
        None
    }

    /// The tensor under a name, which has to be on the device.
    pub fn tensor(&self, name: &str) -> (r: Ds4Result<&TensorDescriptor>)
        ensures
            match self.resident(name@) {
                Some(d) => r matches Ok(x) && *x == d,
                None => r matches Err(e) && (not_resident(name@) matches Some(f) && e.says(f)),
            },
    {
        match self.find_resident(name) {
            Some(d) => Ok(d),
            None => {
                let mut m: String = String::from_str("missing Arc tensor ");
                m.append(name);
                Err(Ds4Error::new(Ds4ErrorKind::Model, m))
            },
        }
    }

    /// The descriptor under a name, whether it is on the device or not.
    pub fn descriptor(&self, name: &str) -> (r: Ds4Result<&TensorDescriptor>)
        ensures
            match descriptor_of(self.descriptors@, name@) {
                Some(d) => r matches Ok(x) && *x == d,
                None => r matches Err(e) && e.is(
                    Ds4ErrorKind::Model,
                    "missing tensor descriptor "@ + name@,
                ),
            },
    {
        match find_descriptor(&self.descriptors, name) {
            Some(d) => Ok(d),
            None => {
                let mut m: String = String::from_str("missing tensor descriptor ");
                m.append(name);
                Err(Ds4Error::new(Ds4ErrorKind::Model, m))
            },
        }
    }

    /// Number of tensors on the device.
    pub fn resident_tensor_count(&self) -> (n: usize)
        ensures
            n == resident_names(self.descriptors@, self.spec.block_kind).len(),
    {
        let mut names: NameTable<bool> = NameTable::new();
        let mut i: usize = 0;
        assert(self.descriptors@.take(0) =~= Seq::<TensorDescriptor>::empty());
        assert(names@.dom() =~= Set::<Seq<char>>::empty());
        while i < self.descriptors.len()
            invariant
                i <= self.descriptors@.len(),
                names@.dom() == resident_names(
                    self.descriptors@.take(i as int),
                    self.spec.block_kind,
                ),
            decreases self.descriptors@.len() - i,
        {
            proof {
                let next = self.descriptors@.take(i + 1);
                assert(next.drop_last() =~= self.descriptors@.take(i as int));
                assert(next.last() == self.descriptors@[i as int]);
            }
            if self.stays_on_device(&self.descriptors[i]) {
                names.insert(String::from_str(self.descriptors[i].name.as_str()), true);
            }
            i += 1;
            assert(names@.dom() =~= resident_names(
                self.descriptors@.take(i as int),
                self.spec.block_kind,
            ));
        }
        assert(self.descriptors@.take(i as int) =~= self.descriptors@);
        names.len()
    }

    /// Number of tensors of the file.
    pub fn descriptor_count(&self) -> (n: usize)
        ensures
            n == tensor_names(self.descriptors@).len(),
    {
        let mut names: NameTable<bool> = NameTable::new();
        let mut i: usize = 0;
        assert(self.descriptors@.take(0) =~= Seq::<TensorDescriptor>::empty());
        assert(names@.dom() =~= Set::<Seq<char>>::empty());
        while i < self.descriptors.len()
            invariant
                i <= self.descriptors@.len(),
                names@.dom() == tensor_names(self.descriptors@.take(i as int)),
            decreases self.descriptors@.len() - i,
        {
            proof {
                let next = self.descriptors@.take(i + 1);
                assert(next.drop_last() =~= self.descriptors@.take(i as int));
                assert(next.last() == self.descriptors@[i as int]);
            }
            names.insert(String::from_str(self.descriptors[i].name.as_str()), true);
            i += 1;
            assert(names@.dom() =~= tensor_names(self.descriptors@.take(i as int)));
        }
        assert(self.descriptors@.take(i as int) =~= self.descriptors@);
        names.len()
    }

    /// How the weights count as quantised.
    pub fn quant_kind(&self) -> (k: Ds4QuantKind)
        ensures
            k == match self.metadata.routed_quant {
                Some(q) => q,
                None => if self.spec.block_kind == TransformerBlockKind::Dense {
                    Ds4QuantKind::F32
                } else {
                    Ds4QuantKind::Q3_K
                },
            },
    {
        match self.metadata.routed_quant {
            Some(q) => q,
            None => if self.spec.block_kind == TransformerBlockKind::Dense {
                Ds4QuantKind::F32
            } else {
                Ds4QuantKind::Q3_K
            },
        }
    }

    /// Number of bytes for `len` elements: at least one element, and at most what can be counted.
    pub fn f32_bytes(len: usize) -> (n: usize)
        ensures
            n == if len == 0 {
                4
            } else if len * 4 <= usize::MAX {
                len * 4
            } else {
                usize::MAX as int
            },
    {
        let n: usize = match len.checked_mul(4) {
            Some(n) => n,
            None => usize::MAX,
        };
        if n > 4 {
            n
        } else {
            4
        }
    }

    /// What stands against taking the embedding of a token.
    pub open spec fn embedding_fault(self, token: u32) -> Option<Fault> {
        if self.resident(self.spec.token_embedding@) is None {
            not_resident(self.spec.token_embedding@)
        } else if token >= self.spec.dims.vocab {
            fault(
                Ds4ErrorKind::InvalidArgument,
                "token id "@ + dec(token as nat) + " is outside vocabulary size "@ + dec(
                    self.spec.dims.vocab as nat,
                ),
            )
        } else {
            None
        }
    }

    /// Checks a token before its embedding is launched.
    pub fn check_embedding(&self, token: u32) -> (r: Ds4Result<()>)
        ensures
            match self.embedding_fault(token) {
                Some(f) => r matches Err(e) && e.says(f),
                None => r is Ok,
            },
    {
        self.tensor(self.spec.token_embedding.as_str())?;
        if token as usize >= self.spec.dims.vocab {
            let mut m: String = String::from_str("token id ");
            push_dec(&mut m, token as u64);
            m.append(" is outside vocabulary size ");
            push_dec(&mut m, self.spec.dims.vocab as u64);
            return Err(Ds4Error::new(Ds4ErrorKind::InvalidArgument, m));
        }
        Ok(())
    }

    fn sized_op(&self, names: &LayerTensorNames, op: LayerOp) -> (r: Ds4Result<LayerOp>)
        ensures
            match self.op_fault(*names, op) {
                Some(f) => r matches Err(e) && e.says(f),
                None => r == Ok::<LayerOp, Ds4Error>(self.sized(*names, op)),
            },
    {
        match op {
            LayerOp::RmsNorm { from, weight, to, n } => {
                self.tensor(names.weight(weight))?;
                Ok(op)
            },
            LayerOp::Matvec { from, weight, to, in_dim, out_dim } => {
                let name: &str = names.weight(weight);
                let d: &TensorDescriptor = self.tensor(name)?;
                let (rows, cols): (usize, usize) = matvec_dims(d, name)?;
                Ok(LayerOp::Matvec { from, weight, to, in_dim: rows, out_dim: cols })
            },
            _ => Ok(op),
        }
    }

    /// Lays out the attention block of a layer, and the norm after it. A kernel that cannot run is
    /// reported, the first one in order.
    pub fn attention_block(&self, names: &LayerTensorNames, at: LayerPos) -> (r: Ds4Result<
        Vec<LayerOp>,
    >)
        requires
            at.countable(self.spec.dims.hidden),
        ensures
            ({
                let ops = attention_ops(self.spec.dims, at);
                match self.attention_block_fault(*names, ops, 0) {
                    Some(f) => r matches Err(e) && e.says(f),
                    None => r matches Ok(v) && v@ == ops.map_values(
                        |op: LayerOp| self.sized(*names, op),
                    ),
                }
            }),
    {
        let plain: Vec<LayerOp> = attention_kernels(self.spec.dims, at);
        let mut out: Vec<LayerOp> = Vec::new();
        let mut i: usize = 0;
        while i < plain.len()
            invariant
                i <= plain@.len(),
                plain@ == attention_ops(self.spec.dims, at),
                self.attention_block_fault(*names, plain@, 0) == self.attention_block_fault(
                    *names,
                    plain@,
                    i as int,
                ),
                out@.len() == i,
                forall|j: int|
                    0 <= j < i ==> #[trigger] out@[j] == self.sized(*names, plain@[j]),
            decreases plain@.len() - i,
        {
            let op: LayerOp = self.sized_op(names, plain[i])?;
            out.push(op);
            i += 1;
        }
        assert(out@ =~= attention_ops(self.spec.dims, at).map_values(
            |op: LayerOp| self.sized(*names, op),
        ));
        Ok(out)
    }

    /// Lays out a gated feed-forward block of tensors on the device.
    pub fn resident_ffn(&self, gate: &str, up: &str, down: &str) -> (r: Ds4Result<Vec<LayerOp>>)
        ensures
            match self.resident_ffn_fault(gate@, up@, down@) {
                Some(f) => r matches Err(e) && e.says(f),
                None => r matches Ok(ops) && ops@ == self.resident_ffn_ops(gate@, up@, down@),
            },
    {
        let g: &TensorDescriptor = self.tensor(gate)?;
        let u: &TensorDescriptor = self.tensor(up)?;
        let d: &TensorDescriptor = self.tensor(down)?;
        gated_ffn(g, gate, u, up, d, down)
    }

    /// Lays out a layer with a dense feed-forward block, or the attention block of one with routed
    /// experts.
    pub fn forward_layer_at(&self, names: &LayerTensorNames, at: LayerPos) -> (r: Ds4Result<
        Vec<LayerOp>,
    >)
        requires
            at.countable(self.spec.dims.hidden),
        ensures
            ({
                let ops = attention_ops(self.spec.dims, at);
                let front = ops.map_values(|op: LayerOp| self.sized(*names, op));
                match self.attention_block_fault(*names, ops, 0) {
                    Some(f) => r matches Err(e) && e.says(f),
                    None => match names.ffn {
                        FfnTensorNames::Dense { gate, up, down } => match self.resident_ffn_fault(
                            gate@,
                            up@,
                            down@,
                        ) {
                            Some(f) => r matches Err(e) && e.says(f),
                            None => r matches Ok(v) && v@ == (front + self.resident_ffn_ops(
                                gate@,
                                up@,
                                down@,
                            )).push(
                                LayerOp::Add {
                                    to: LayerBuf::X,
                                    from: LayerBuf::Down,
                                    n: self.spec.dims.hidden,
                                },
                            ),
                        },
                        FfnTensorNames::RoutedMoe { .. } => r matches Ok(v) && v@ == front,
                    },
                }
            }),
    {
        let mut ops: Vec<LayerOp> = self.attention_block(names, at)?;
        let ghost front = ops@;
        match &names.ffn {
            FfnTensorNames::Dense { gate, up, down } => {
                let tail: Vec<LayerOp> = self.resident_ffn(
                    gate.as_str(),
                    up.as_str(),
                    down.as_str(),
                )?;
                let mut i: usize = 0;
                while i < tail.len()
                    invariant
                        i <= tail@.len(),
                        ops@ == front + tail@.take(i as int),
                    decreases tail@.len() - i,
                {
                    ops.push(tail[i]);
                    i += 1;
                    assert(ops@ =~= front + tail@.take(i as int));
                }
                assert(tail@.take(i as int) =~= tail@);
                ops.push(
                    LayerOp::Add {
                        to: LayerBuf::X,
                        from: LayerBuf::Down,
                        n: self.spec.dims.hidden,
                    },
                );
            },
            FfnTensorNames::RoutedMoe {
                router,
                expert_layout,
                shared_gate,
                shared_up,
                shared_down,
            } => {},
        }
        Ok(ops)
    }

    /// Lays out the router of a block with routed experts. At least one expert is taken, and no
    /// more than there are logits.
    pub fn router_plan(&self, router: &str) -> (r: Ds4Result<RouterPlan>)
        ensures
            match self.weight_fault(router@) {
                Some(f) => r matches Err(e) && e.says(f),
                None => {
                    let d = self.resident(router@).unwrap().dims@;
                    let wanted: int = match self.spec.moe {
                        Some(m) => m.active_experts as int,
                        None => 1,
                    };
                    &&& r matches Ok(p)
                    &&& p.in_dim == d[0]
                    &&& p.out_dim == d[1]
                    &&& p.active == if wanted == 0 || d[1] == 0 {
                        1
                    } else if wanted < d[1] {
                        wanted
                    } else {
                        d[1] as int
                    }
                },
            },
    {
        let d: &TensorDescriptor = self.tensor(router)?;
        let (in_dim, out_dim): (usize, usize) = matvec_dims(d, router)?;
        let wanted: usize = match &self.spec.moe {
            Some(m) => m.active_experts,
            None => 1,
        };
        let capped: usize = if wanted < out_dim {
            wanted
        } else {
            out_dim
        };
        Ok(
            RouterPlan {
                in_dim,
                out_dim,
                active: if capped > 0 {
                    capped
                } else {
                    1
                },
            },
        )
    }

    /// The names of the tensors of an expert.
    pub fn expert_names(layout: &ExpertTensorLayout, layer: usize, expert: usize) -> (r: ExpertNames)
        ensures
            match *layout {
                ExpertTensorLayout::PerExpert { gate_pattern, up_pattern, down_pattern } => {
                    &&& !r.packed
                    &&& r.gate@ == expert_text(gate_pattern@, layer, expert)
                    &&& r.up@ == expert_text(up_pattern@, layer, expert)
                    &&& r.down@ == expert_text(down_pattern@, layer, expert)
                },
                ExpertTensorLayout::Packed { gate, up, down } => {
                    &&& r.packed
                    &&& r.gate@ == replaced(gate@, "{layer}"@, dec(layer as nat))
                    &&& r.up@ == replaced(up@, "{layer}"@, dec(layer as nat))
                    &&& r.down@ == replaced(down@, "{layer}"@, dec(layer as nat))
                },
            },
    {
        match layout {
            ExpertTensorLayout::PerExpert { gate_pattern, up_pattern, down_pattern } => ExpertNames {
                gate: render_expert_pattern(gate_pattern.as_str(), layer, expert),
                up: render_expert_pattern(up_pattern.as_str(), layer, expert),
                down: render_expert_pattern(down_pattern.as_str(), layer, expert),
                packed: false,
            },
            ExpertTensorLayout::Packed { gate, up, down } => ExpertNames {
                gate: render_layer_pattern(gate.as_str(), layer),
                up: render_layer_pattern(up.as_str(), layer),
                down: render_layer_pattern(down.as_str(), layer),
                packed: true,
            },
        }
    }

    /// What stands against taking a tensor of the file to the device for one use.
    pub open spec fn transient_fault(self, name: Seq<char>) -> Option<Fault> {
        match descriptor_of(self.descriptors@, name) {
            None => fault(Ds4ErrorKind::Model, "missing tensor descriptor "@ + name),
            Some(d) => if format_code(d.dtype) is None {
                fault(
                    Ds4ErrorKind::NotImplemented,
                    "Arc routed-MoE selected tensor "@ + name + " has unsupported dtype "@
                        + dtype_name(d.dtype),
                )
            } else {
                None
            },
        }
    }

    /// Checks a tensor of the file that is to be taken to the device for one use.
    pub fn load_transient_supported_tensor(&self, name: &str) -> (r: Ds4Result<&TensorDescriptor>)
        ensures
            match self.transient_fault(name@) {
                Some(f) => r matches Err(e) && e.says(f),
                None => r matches Ok(d) && descriptor_of(self.descriptors@, name@) == Some(*d),
            },
    {
        let d: &TensorDescriptor = self.descriptor(name)?;
        if dtype_code(d.dtype).is_none() {
            let mut m: String = String::from_str("Arc routed-MoE selected tensor ");
            m.append(name);
            m.append(" has unsupported dtype ");
            m.append(d.dtype.name());
            return Err(Ds4Error::new(Ds4ErrorKind::NotImplemented, m));
        }
        Ok(d)
    }

    /// The size of the dimension along which the experts run.
    pub open spec fn expert_count(self, expert: usize) -> int {
        let known: int = match self.spec.moe {
            Some(m) => m.experts as int,
            None => 0,
        };
        if known > expert + 1 {
            known
        } else {
            expert + 1
        }
    }

    /// What stands against a packed tensor, before its bytes are looked at.
    pub open spec fn packed_fault(self, name: Seq<char>, expert: usize) -> Option<Fault> {
        match descriptor_of(self.descriptors@, name) {
            None => fault(Ds4ErrorKind::Model, "missing tensor descriptor "@ + name),
            Some(d) => if format_code(d.dtype) is None {
                fault(
                    Ds4ErrorKind::NotImplemented,
                    "Arc packed expert tensor "@ + name + " has unsupported dtype "@ + dtype_name(
                        d.dtype,
                    ),
                )
            } else if d.dims@.len() != 3 {
                fault(
                    Ds4ErrorKind::Model,
                    "packed expert tensor "@ + name + " must be 3D, got "@ + dec_list(d.dims@),
                )
            } else if axis_of(d.dims@, self.expert_count(expert), 0) is None {
                fault(
                    Ds4ErrorKind::Model,
                    "packed expert tensor "@ + name + " shape "@ + dec_list(d.dims@)
                        + " does not contain expert count "@ + dec(
                        self.expert_count(expert) as nat,
                    ),
                )
            } else {
                None
            },
        }
    }

    /// What stands against the bytes of a packed tensor.
    pub open spec fn packed_bytes_fault(self, d: TensorDescriptor, expert: usize, len: nat) -> Option<
        Fault,
    > {
        let axis = axis_of(d.dims@, self.expert_count(expert), 0).unwrap();
        let m = without_axis(d.dims@, axis as int);
        if d.dtype == GgufDType::F32 {
            elements_fault(len, d.dims@, axis, expert, m[0] as int, m[1] as int, 0)
        } else {
            quant_slice_fault(len, data_bytes(m, d.dtype), expert)
        }
    }

    /// The bytes of an expert, cut out of a packed tensor.
    pub open spec fn is_packed_slice(
        self,
        out: Seq<u8>,
        d: TensorDescriptor,
        expert: usize,
        bytes: Seq<u8>,
    ) -> bool {
        let axis = axis_of(d.dims@, self.expert_count(expert), 0).unwrap();
        let m = without_axis(d.dims@, axis as int);
        if d.dtype == GgufDType::F32 {
            is_expert_matrix(out, bytes, d.dims@, axis, expert, m[0] * m[1], m[1] as int)
        } else {
            let stride = data_bytes(m, d.dtype);
            out == bytes.subrange(expert * stride, expert * stride + stride)
        }
    }

    /// The bytes of a packed tensor can be counted on this machine, whichever dimension the
    /// experts run along.
    pub open spec fn packed_countable(self, name: Seq<char>) -> bool {
        descriptor_of(self.descriptors@, name) matches Some(d) ==> forall|axis: int|
            0 <= axis < d.dims@.len() ==> elements_countable(
                #[trigger] without_axis(d.dims@, axis),
            ) && data_bytes(without_axis(d.dims@, axis), d.dtype) <= usize::MAX
    }

    /// Cuts the tensor of an expert out of a packed one. `data` is what reading the bytes of the
    /// packed tensor came to; it is looked at only if nothing else stands against the tensor.
    pub fn load_packed_expert_tensor(&self, name: &str, expert: usize, data: Ds4Result<Vec<u8>>) -> (r:
        Ds4Result<ExpertTensor>)
        requires
            expert < usize::MAX,
            self.packed_countable(name@),
        ensures
            match self.packed_fault(name@, expert) {
                Some(f) => r matches Err(e) && e.says(f),
                None => {
                    let d = descriptor_of(self.descriptors@, name@).unwrap();
                    match data {
                        Err(e) => r == Err::<ExpertTensor, Ds4Error>(e),
                        Ok(bytes) => match self.packed_bytes_fault(d, expert, bytes@.len()) {
                            Some(f) => r matches Err(e) && e.says(f),
                            None => {
                                &&& r matches Ok(t)
                                &&& t.descriptor.name@ == name@ + "#"@ + dec(expert as nat)
                                &&& t.descriptor.dtype == d.dtype
                                &&& t.descriptor.dims@ == without_axis(
                                    d.dims@,
                                    axis_of(d.dims@, self.expert_count(expert), 0).unwrap() as int,
                                )
                                &&& self.is_packed_slice(t.bytes@, d, expert, bytes@)
                            },
                        },
                    }
                },
            },
    {
        let d: &TensorDescriptor = self.descriptor(name)?;
        if dtype_code(d.dtype).is_none() {
            let mut m: String = String::from_str("Arc packed expert tensor ");
            m.append(name);
            m.append(" has unsupported dtype ");
            m.append(d.dtype.name());
            return Err(Ds4Error::new(Ds4ErrorKind::NotImplemented, m));
        }
        if d.dims.len() != 3 {
            let mut m: String = String::from_str("packed expert tensor ");
            m.append(name);
            m.append(" must be 3D, got ");
            push_dec_list(&mut m, d.dims.as_slice());
            return Err(Ds4Error::new(Ds4ErrorKind::Model, m));
        }
        let known: usize = match &self.spec.moe {
            Some(m) => m.experts,
            None => 0,
        };
        let count: usize = if known > expert + 1 {
            known
        } else {
            expert + 1
        };
        let axis: usize = match find_axis(d.dims.as_slice(), count) {
            Some(a) => a,
            None => {
                let mut m: String = String::from_str("packed expert tensor ");
                m.append(name);
                m.append(" shape ");
                push_dec_list(&mut m, d.dims.as_slice());
                m.append(" does not contain expert count ");
                push_dec(&mut m, count as u64);
                return Err(Ds4Error::new(Ds4ErrorKind::Model, m));
            },
        };
        let dims: Vec<u32> = matrix_dims(d.dims.as_slice(), axis);
        proof {
            assert(elements_countable(without_axis(d.dims@, axis as int)));
        }
        let bytes: Vec<u8> = match data {
            Ok(b) => b,
            Err(e) => return Err(e),
        };
        let cut: Vec<u8> = if d.dtype == GgufDType::F32 {
            packed_f32_expert_slice(bytes.as_slice(), d.dims.as_slice(), axis, expert)?
        } else {
            packed_quant_expert_slice(bytes.as_slice(), dims.as_slice(), d.dtype, expert)?
        };
        let mut label: String = String::from_str(name);
        label.append("#");
        push_dec(&mut label, expert as u64);
        Ok(
            ExpertTensor {
                descriptor: TensorDescriptor { name: label, dims, dtype: d.dtype },
                bytes: cut,
            },
        )
    }

    /// Lays out the shared expert, where all three of its tensors are named and on the device.
    pub fn shared_ffn(&self, gate: &Option<String>, up: &Option<String>, down: &Option<String>) -> (r:
        Ds4Result<Option<Vec<LayerOp>>>)
        ensures
            match (*gate, *up, *down) {
                (Some(g), Some(u), Some(d)) => if self.resident(g@) is Some && self.resident(
                    u@,
                ) is Some && self.resident(d@) is Some {
                    match self.resident_ffn_fault(g@, u@, d@) {
                        Some(f) => r matches Err(e) && e.says(f),
                        None => r matches Ok(Some(ops)) && ops@ == self.resident_ffn_ops(
                            g@,
                            u@,
                            d@,
                        ),
                    }
                } else {
                    r matches Ok(None)
                },
                _ => r matches Ok(None),
            },
    {
        match (gate, up, down) {
            (Some(g), Some(u), Some(d)) => {
                if self.find_resident(g.as_str()).is_some() && self.find_resident(
                    u.as_str(),
                ).is_some() && self.find_resident(d.as_str()).is_some() {
                    let ops: Vec<LayerOp> = self.resident_ffn(
                        g.as_str(),
                        u.as_str(),
                        d.as_str(),
                    )?;
                    Ok(Some(ops))
                } else {
                    Ok(None)
                }
            },
            _ => Ok(None),
        }
    }

    /// What stands against the output head.
    pub open spec fn head_fault(self, n_tokens: usize, logits_len: usize) -> Option<Fault> {
        let dims = self.spec.dims;
        if n_tokens == 0 {
            None
        } else if logits_len < n_tokens * dims.vocab {
            fault(
                Ds4ErrorKind::InvalidArgument,
                "logit buffer too small: "@ + dec(logits_len as nat) + " < "@ + dec(
                    (n_tokens * dims.vocab) as nat,
                ),
            )
        } else if self.spec.output_norm matches Some(norm) && self.resident(norm@) is None {
            not_resident(self.spec.output_norm->0@)
        } else {
            match self.resident(self.spec.output@) {
                None => not_resident(self.spec.output@),
                Some(d) => if d.dims@.len() != 2 {
                    bad_shape(self.spec.output@, d.dims@)
                } else if d.dims@[0] != dims.hidden || d.dims@[1] != dims.vocab {
                    fault(
                        Ds4ErrorKind::Model,
                        self.spec.output@ + " matvec shape mismatch: got "@ + dec(
                            d.dims@[0] as nat,
                        ) + "x"@ + dec(d.dims@[1] as nat) + ", expected "@ + dec(
                            dims.hidden as nat,
                        ) + "x"@ + dec(dims.vocab as nat),
                    )
                } else {
                    None
                },
            }
        }
    }

    /// Checks the output head over the hidden states of `n_tokens` tokens.
    pub fn check_output_head(&self, n_tokens: usize, logits_len: usize) -> (r: Ds4Result<()>)
        requires
            n_tokens * self.spec.dims.vocab <= usize::MAX,
        ensures
            match self.head_fault(n_tokens, logits_len) {
                Some(f) => r matches Err(e) && e.says(f),
                None => r is Ok,
            },
    {
        let dims: ModelDims = self.spec.dims;
        if n_tokens == 0 {
            return Ok(());
        }
        let needed: usize = n_tokens * dims.vocab;
        if logits_len < needed {
            let mut m: String = String::from_str("logit buffer too small: ");
            push_dec(&mut m, logits_len as u64);
            m.append(" < ");
            push_dec(&mut m, needed as u64);
            return Err(Ds4Error::new(Ds4ErrorKind::InvalidArgument, m));
        }
        if let Some(norm) = &self.spec.output_norm {
            self.tensor(norm.as_str())?;
        }
        let name: &str = self.spec.output.as_str();
        let d: &TensorDescriptor = self.tensor(name)?;
        let (rows, cols): (usize, usize) = matvec_dims(d, name)?;
        if rows != dims.hidden || cols != dims.vocab {
            let mut m: String = String::from_str(name);
            m.append(" matvec shape mismatch: got ");
            push_dec(&mut m, rows as u64);
            m.append("x");
            push_dec(&mut m, cols as u64);
            m.append(", expected ");
            push_dec(&mut m, dims.hidden as u64);
            m.append("x");
            push_dec(&mut m, dims.vocab as u64);
            return Err(Ds4Error::new(Ds4ErrorKind::Model, m));
        }
        Ok(())
    }

    /// Checks a hidden state that comes from the host, and gives the number of elements that are
    /// used: none without tokens.
    pub fn check_host_hidden(&self, hidden_len: usize, n_tokens: usize) -> (r: Ds4Result<usize>)
        requires
            n_tokens * self.spec.dims.hidden <= usize::MAX,
        ensures
            if n_tokens == 0 && hidden_len != 0 {
                r matches Err(e) && e.is(
                    Ds4ErrorKind::InvalidArgument,
                    "n_tokens is zero but hidden_hc is not empty"@,
                )
            } else if hidden_len < n_tokens * self.spec.dims.hidden {
                r matches Err(e) && e.is(
                    Ds4ErrorKind::InvalidArgument,
                    "hidden_hc too small: "@ + dec(hidden_len as nat) + " < "@ + dec(
                        (n_tokens * self.spec.dims.hidden) as nat,
                    ),
                )
            } else {
                r matches Ok(n) && n == n_tokens * self.spec.dims.hidden
            },
    {
        if n_tokens == 0 {
            assert(0 * self.spec.dims.hidden == 0) by (nonlinear_arith);
            if hidden_len == 0 {
                return Ok(0);
            }
            return Err(
                Ds4Error::new(
                    Ds4ErrorKind::InvalidArgument,
                    String::from_str("n_tokens is zero but hidden_hc is not empty"),
                ),
            );
        }
        let needed: usize = n_tokens * self.spec.dims.hidden;
        if hidden_len < needed {
            let mut m: String = String::from_str("hidden_hc too small: ");
            push_dec(&mut m, hidden_len as u64);
            m.append(" < ");
            push_dec(&mut m, needed as u64);
            return Err(Ds4Error::new(Ds4ErrorKind::InvalidArgument, m));
        }
        Ok(needed)
    }
}

/// The first dimension of this size, from `from` on.
pub open spec fn axis_of(dims: Seq<u32>, size: int, from: int) -> Option<usize>
    decreases dims.len() - from,
{
    if from < 0 || from >= dims.len() {
        None
    } else if dims[from] == size {
        Some(from as usize)
    } else {
        axis_of(dims, size, from + 1)
    }
}

fn find_axis(dims: &[u32], size: usize) -> (r: Option<usize>)
    ensures
        r == axis_of(dims@, size as int, 0),
        r matches Some(a) ==> a < dims@.len(),
{
    let mut i: usize = 0;
    while i < dims.len()
        invariant
            i <= dims@.len(),
            axis_of(dims@, size as int, 0) == axis_of(dims@, size as int, i as int),
        decreases dims@.len() - i,
    {
        if dims[i] as usize == size {
            return Some(i);
        }
        i += 1;
    }
    None
}

// ---- Routing ----

/// Expert `i` comes before expert `j`: its logit is higher in the total order, or the same and it
/// has the lower number.
pub open spec fn ranks_before(logits: Seq<u32>, i: int, j: int) -> bool {
    total_order(logits[i]) > total_order(logits[j]) || (total_order(logits[i]) == total_order(
        logits[j],
    ) && i < j)
}

/// Each expert of the list comes before the ones after it.
pub open spec fn in_rank_order(logits: Seq<u32>, ids: Seq<usize>) -> bool {
    forall|a: int, b: int|
        0 <= a < b < ids.len() ==> ranks_before(
            logits,
            #[trigger] ids[a] as int,
            #[trigger] ids[b] as int,
        )
}

/// Each expert of the list comes before all that are not in it.
pub open spec fn ahead_of_rest(logits: Seq<u32>, ids: Seq<usize>) -> bool {
    forall|a: int, i: int|
        #![trigger ids[a], logits[i]]
        0 <= a < ids.len() && 0 <= i < logits.len() && !ids.contains(i as usize) ==> ranks_before(
            logits,
            ids[a] as int,
            i,
        )
}

/// The list holds the highest experts by rank, in order.
pub open spec fn are_top(logits: Seq<u32>, ids: Seq<usize>) -> bool {
    &&& forall|a: int| 0 <= a < ids.len() ==> (#[trigger] ids[a]) < logits.len()
    &&& in_rank_order(logits, ids)
    &&& ahead_of_rest(logits, ids)
}

/// Two lists of the highest experts are the same, if they are as long.
pub proof fn law_top_unique(logits: Seq<u32>, a: Seq<usize>, b: Seq<usize>)
    requires
        are_top(logits, a),
        are_top(logits, b),
        a.len() == b.len(),
        logits.len() <= usize::MAX,
    ensures
        a == b,
    decreases a.len(),
{
    if a.len() > 0 {
        let x = a.drop_last();
        let y = b.drop_last();
        lemma_top_init(logits, a);
        lemma_top_init(logits, b);
        law_top_unique(logits, x, y);
        let n = a.len() - 1;
        let p = a[n];
        let q = b[n];
        if p != q {
            assert(!x.contains(p)) by {
                if x.contains(p) {
                    let i = choose|i: int| 0 <= i < x.len() && x[i] == p;
                    assert(ranks_before(logits, a[i] as int, a[n] as int));
                }
            }
            assert(!y.contains(q)) by {
                if y.contains(q) {
                    let i = choose|i: int| 0 <= i < y.len() && y[i] == q;
                    assert(ranks_before(logits, b[i] as int, b[n] as int));
                }
            }
            assert(!b.contains(p)) by {
                if b.contains(p) {
                    let i = choose|i: int| 0 <= i < b.len() && b[i] == p;
                    if i < n {
                        assert(y[i] == p);
                        assert(x[i] == p);
                    }
                }
            }
            assert(!a.contains(q)) by {
                if a.contains(q) {
                    let i = choose|i: int| 0 <= i < a.len() && a[i] == q;
                    if i < n {
                        assert(x[i] == q);
                        assert(y[i] == q);
                    }
                }
            }
            assert(logits[p as int] == logits[p as int] && logits[q as int] == logits[q as int]);
            assert(ranks_before(logits, b[n] as int, p as int));
            assert(ranks_before(logits, a[n] as int, q as int));
        }
        assert(a =~= x.push(p));
        assert(b =~= y.push(q));
    } else {
        assert(a =~= b);
    }
}

proof fn lemma_top_init(logits: Seq<u32>, ids: Seq<usize>)
    requires
        are_top(logits, ids),
        ids.len() > 0,
        logits.len() <= usize::MAX,
    ensures
        are_top(logits, ids.drop_last()),
{
    let x = ids.drop_last();
    let n = ids.len() - 1;
    assert forall|a: int, i: int|
        #![trigger x[a], logits[i]]
        0 <= a < x.len() && 0 <= i < logits.len() && !x.contains(i as usize) implies ranks_before(
        logits,
        x[a] as int,
        i,
    ) by {
        if ids.contains(i as usize) {
            let k = choose|k: int| 0 <= k < ids.len() && ids[k] == i as usize;
            if k < n {
                assert(x[k] == i as usize);
            }
            assert(ranks_before(logits, ids[a] as int, ids[n] as int));
        } else {
            assert(ranks_before(logits, ids[a] as int, i));
        }
    }
}

fn ranked_before(logits: &[u32], i: usize, j: usize) -> (r: bool)
    requires
        i < logits@.len(),
        j < logits@.len(),
    ensures
        r == ranks_before(logits@, i as int, j as int),
{
    let a: i64 = total_key(logits[i]);
    let b: i64 = total_key(logits[j]);
    a > b || (a == b && i < j)
}

fn id_listed(ids: &Vec<usize>, id: usize) -> (r: bool)
    ensures
        r == ids@.contains(id),
{
    let mut i: usize = 0;
    while i < ids.len()
        invariant
            i <= ids@.len(),
            forall|j: int| 0 <= j < i ==> ids@[j] != id,
        decreases ids@.len() - i,
    {
        if ids[i] == id {
            return true;
        }
        i += 1;
    }
    false
}

/// The best expert that is not in the list, if there is one.
fn next_expert(logits: &[u32], ids: &Vec<usize>) -> (r: Option<usize>)
    ensures
        match r {
            Some(x) => {
                &&& x < logits@.len()
                &&& !ids@.contains(x)
                &&& forall|i: int|
                    #![trigger logits@[i]]
                    0 <= i < logits@.len() && i != x && !ids@.contains(i as usize)
                        ==> ranks_before(logits@, x as int, i)
            },
            None => forall|i: int| 0 <= i < logits@.len() ==> ids@.contains(#[trigger] (i as usize)),
        },
{
    let mut best: Option<usize> = None;
    let mut i: usize = 0;
    while i < logits.len()
        invariant
            i <= logits@.len(),
            match best {
                Some(x) => {
                    &&& x < i
                    &&& !ids@.contains(x)
                    &&& forall|j: int|
                        #![trigger logits@[j]]
                        0 <= j < i && j != x && !ids@.contains(j as usize) ==> ranks_before(
                            logits@,
                            x as int,
                            j,
                        )
                },
                None => forall|j: int| 0 <= j < i ==> ids@.contains(#[trigger] (j as usize)),
            },
        decreases logits@.len() - i,
    {
        if !id_listed(ids, i) {
            match best {
                None => {
                    best = Some(i);
                },
                Some(x) => {
                    if ranked_before(logits, i, x) {
                        best = Some(i);
                    }
                },
            }
        }
        i += 1;
    }
    best
}

proof fn lemma_push_top(logits: Seq<u32>, ids: Seq<usize>, x: usize)
    requires
        are_top(logits, ids),
        x < logits.len() <= usize::MAX,
        !ids.contains(x),
        forall|i: int|
            #![trigger logits[i]]
            0 <= i < logits.len() && i != x && !ids.contains(i as usize) ==> ranks_before(
                logits,
                x as int,
                i,
            ),
    ensures
        are_top(logits, ids.push(x)),
{
    let next = ids.push(x);
    assert forall|a: int, b: int| 0 <= a < b < next.len() implies ranks_before(
        logits,
        #[trigger] next[a] as int,
        #[trigger] next[b] as int,
    ) by {
        if b == ids.len() {
            assert(logits[x as int] == logits[x as int]);
            assert(ranks_before(logits, ids[a] as int, x as int));
        } else {
            assert(ranks_before(logits, ids[a] as int, ids[b] as int));
        }
    }
    assert forall|a: int, i: int|
        #![trigger next[a], logits[i]]
        0 <= a < next.len() && 0 <= i < logits.len() && !next.contains(
            i as usize,
        ) implies ranks_before(logits, next[a] as int, i) by {
        assert(next[ids.len() as int] == x);
        assert(i != x);
        if ids.contains(i as usize) {
            let k = choose|k: int| 0 <= k < ids.len() && ids[k] == i as usize;
            assert(next[k] == i as usize);
        }
        if a < ids.len() {
            assert(ranks_before(logits, ids[a] as int, i));
        }
    }
}

proof fn lemma_some_left(logits: Seq<u32>, ids: Seq<usize>)
    requires
        are_top(logits, ids),
        ids.len() < logits.len() <= usize::MAX,
    ensures
        exists|i: int| 0 <= i < logits.len() && !ids.contains(#[trigger] (i as usize)),
{
    if forall|i: int| 0 <= i < logits.len() ==> ids.contains(#[trigger] (i as usize)) {
        let t = ids.map_values(|x: usize| x as int);
        assert(t.no_duplicates()) by {
            assert forall|a: int, b: int| 0 <= a < t.len() && 0 <= b < t.len() && a != b implies t[a]
                != t[b] by {
                if a < b {
                    assert(ranks_before(logits, ids[a] as int, ids[b] as int));
                } else {
                    assert(ranks_before(logits, ids[b] as int, ids[a] as int));
                }
            }
        }
        t.unique_seq_to_set();
        let all = vstd::set_lib::set_int_range(0, logits.len() as int);
        vstd::set_lib::lemma_int_range(0, logits.len() as int);
        assert(all.subset_of(t.to_set())) by {
            assert forall|i: int| all.contains(i) implies t.to_set().contains(i) by {
                assert(ids.contains(i as usize));
                let k = choose|k: int| 0 <= k < ids.len() && ids[k] == i as usize;
                assert(t[k] == i);
            }
        }
        vstd::set_lib::lemma_len_subset(all, t.to_set());
    }
}

/// The highest experts by rank: `k` of them, or all if there are fewer.
pub fn top_experts(logits: &[u32], k: usize) -> (r: Vec<usize>)
    ensures
        are_top(logits@, r@),
        r@.len() == if k < logits@.len() {
            k as nat
        } else {
            logits@.len()
        },
{
    let n: usize = if k < logits.len() {
        k
    } else {
        logits.len()
    };
    let mut ids: Vec<usize> = Vec::new();
    while ids.len() < n
        invariant
            n <= logits@.len() <= usize::MAX,
            ids@.len() <= n,
            are_top(logits@, ids@),
        decreases n - ids@.len(),
    {
        match next_expert(logits, &ids) {
            Some(x) => {
                let ghost before = ids@;
                ids.push(x);
                proof {
                    lemma_push_top(logits@, before, x);
                }
            },
            None => {
                proof {
                    lemma_some_left(logits@, ids@);
                }
            },
        }
    }
    ids
}

// ---- What the kernels come to ----

/// What a gated feed-forward block makes of its input: the products of the input with two matrices
/// are multiplied, the first of them activated, and go through a third matrix.
pub open spec fn gated_value(
    a: Arithmetic,
    input: Seq<u32>,
    gate: Seq<u32>,
    up: Seq<u32>,
    down: Seq<u32>,
) -> Seq<u32> {
    let g = (a.product)(input, LayerWeight::FfnGate, gate[0] as usize, gate[1] as usize);
    let u = (a.product)(input, LayerWeight::FfnUp, up[0] as usize, up[1] as usize);
    (a.product)(
        (a.gate)(g, u, gate[1] as usize),
        LayerWeight::FfnDown,
        down[0] as usize,
        down[1] as usize,
    )
}

/// Whatever the arithmetic is, the kernels of a gated block leave its value in their last buffer,
/// and leave the hidden state, the block's input, the sum of the experts and the caches alone.
pub proof fn law_gated_value(
    a: Arithmetic,
    s: LayerState,
    gate: Seq<u32>,
    up: Seq<u32>,
    down: Seq<u32>,
)
    ensures
        ({
            let ops = gated_ops(gate, up, down);
            let r = run_ops(a, s, ops, ops.len());
            &&& r.bufs[LayerBuf::Down] == gated_value(a, s.bufs[LayerBuf::FfnIn], gate, up, down)
            &&& r.bufs[LayerBuf::X] == s.bufs[LayerBuf::X]
            &&& r.bufs[LayerBuf::FfnIn] == s.bufs[LayerBuf::FfnIn]
            &&& r.bufs[LayerBuf::Sum] == s.bufs[LayerBuf::Sum]
            &&& r.k == s.k
            &&& r.v == s.v
        }),
{
    let ops = gated_ops(gate, up, down);
    assert(ops.len() == 4);
    reveal_with_fuel(run_ops, 5);
    let s1 = run_op(a, s, ops[0]);
    let s2 = run_op(a, s1, ops[1]);
    let s3 = run_op(a, s2, ops[2]);
    assert(run_ops(a, s, ops, 4) == run_op(a, s3, ops[3]));
}

/// The tensor of a weight on the device has these sizes.
pub open spec fn weight_is(m: ArcModel, names: LayerTensorNames, w: LayerWeight, rows: usize, cols: usize) -> bool {
    m.resident(weight_name(names, w)) matches Some(d) && d.dims@.len() == 2 && d.dims@[0] == rows
        && d.dims@[1] == cols
}

/// Whatever the arithmetic is, the kernels of a dense layer, on tensors of the model's sizes, leave
/// the hidden state that attention and then feeding forward give, and the caches that attention
/// gives.
pub proof fn law_arc_layer_value(
    m: ArcModel,
    names: LayerTensorNames,
    a: Arithmetic,
    at: LayerPos,
    s: LayerState,
    ops: Seq<LayerOp>,
)
    requires
        at.countable(m.spec.dims.hidden),
        names.ffn matches FfnTensorNames::Dense { gate, up, down } && ops == (attention_ops(
            m.spec.dims,
            at,
        ).map_values(|op: LayerOp| m.sized(names, op)) + m.resident_ffn_ops(
            gate@,
            up@,
            down@,
        )).push(LayerOp::Add { to: LayerBuf::X, from: LayerBuf::Down, n: m.spec.dims.hidden }),
        weight_is(m, names, LayerWeight::AttnQ, m.spec.dims.hidden, m.spec.dims.hidden),
        weight_is(m, names, LayerWeight::AttnK, m.spec.dims.hidden, m.spec.dims.hidden),
        weight_is(m, names, LayerWeight::AttnV, m.spec.dims.hidden, m.spec.dims.hidden),
        weight_is(m, names, LayerWeight::AttnOutput, m.spec.dims.hidden, m.spec.dims.hidden),
        weight_is(m, names, LayerWeight::FfnGate, m.spec.dims.hidden, m.spec.dims.ffn),
        weight_is(m, names, LayerWeight::FfnUp, m.spec.dims.hidden, m.spec.dims.ffn),
        weight_is(m, names, LayerWeight::FfnDown, m.spec.dims.ffn, m.spec.dims.hidden),
    ensures
        ({
            let r = run_ops(a, s, ops, ops.len());
            let e = attended(a, m.spec.dims, at, s.bufs[LayerBuf::X], s.k, s.v);
            &&& r.bufs[LayerBuf::X] == fed_forward(a, m.spec.dims, e.x)
            &&& r.k == e.k
            &&& r.v == e.v
        }),
{
    let dims = m.spec.dims;
    let plain = attention_ops(dims, at);
    let front = plain.map_values(|op: LayerOp| m.sized(names, op));
    assert(front =~= plain);
    assert(ops =~= plain + dense_ops(dims));
    law_layer_value(a, dims, at, s);
}

/// Of the experts that are taken, each has a logit that is at least as high as those of all experts
/// behind it and of all that are not taken; of equal ones the expert with the lower number comes
/// first. Patterns below that of negative zero are ordered as numbers are.
pub proof fn law_top_are_highest(logits: Seq<u32>, ids: Seq<usize>)
    requires
        are_top(logits, ids),
        logits.len() <= usize::MAX,
        forall|i: int| 0 <= i < logits.len() ==> #[trigger] logits[i] < 0x8000_0000,
    ensures
        ids.no_duplicates(),
        forall|a: int, b: int|
            0 <= a < b < ids.len() ==> logits[#[trigger] ids[a] as int] > logits[#[trigger] ids[b] as int]
                || (logits[ids[a] as int] == logits[ids[b] as int] && ids[a] < ids[b]),
        forall|a: int, i: int|
            0 <= a < ids.len() && 0 <= i < logits.len() && !ids.contains(i as usize)
                ==> logits[#[trigger] ids[a] as int] > #[trigger] logits[i] || (logits[ids[a] as int]
                == logits[i] && ids[a] < i),
{
    assert forall|a: int, b: int| 0 <= a < b < ids.len() implies logits[#[trigger] ids[a] as int]
        > logits[#[trigger] ids[b] as int] || (logits[ids[a] as int] == logits[ids[b] as int]
        && ids[a] < ids[b]) by {
        assert(ranks_before(logits, ids[a] as int, ids[b] as int));
        assert(logits[ids[a] as int] < 0x8000_0000 && logits[ids[b] as int] < 0x8000_0000);
    }
    assert forall|a: int, i: int|
        0 <= a < ids.len() && 0 <= i < logits.len() && !ids.contains(
            i as usize,
        ) implies logits[#[trigger] ids[a] as int] > #[trigger] logits[i] || (logits[ids[a] as int]
        == logits[i] && ids[a] < i) by {
        assert(ranks_before(logits, ids[a] as int, i));
        assert(logits[ids[a] as int] < 0x8000_0000);
    }
}

/// A router's logit that is negative comes behind every one that is not, and of two negative ones
/// the one nearer to zero comes first.
pub proof fn law_rank_by_sign(logits: Seq<u32>, i: int, j: int)
    requires
        0 <= i < logits.len(),
        0 <= j < logits.len(),
    ensures
        logits[i] < 0x8000_0000 <= logits[j] ==> ranks_before(logits, i, j),
        0x8000_0000 <= logits[i] < logits[j] ==> ranks_before(logits, i, j),
        logits[i] == logits[j] ==> (ranks_before(logits, i, j) <==> i < j),
{
}

/// What each position adds to the memory of a context: 512 bytes for one of the context, and 256
/// for one of a prefill chunk, as far as the sum can be counted.
pub proof fn law_device_memory_per_position(ctx: usize, chunk: usize)
    requires
        0 < ctx < 0x1_0000_0000_0000,
        0 < chunk < 0x1_0000_0000_0000,
        ctx < usize::MAX,
        chunk < usize::MAX,
    ensures
        device_memory((ctx + 1) as usize, chunk) == device_memory(ctx, chunk) + 512,
        device_memory(ctx, (chunk + 1) as usize) == device_memory(ctx, chunk) + 256,
        device_memory(1, 1) == 512 + 256 + 4096,
        device_memory(0, 0) == device_memory(1, 1),
{
}

/// The numbers that the kernels have for the formats that they read: they count up in this order,
/// and no other format has one.
pub proof fn law_format_codes(d: GgufDType, code: i32)
    ensures
        format_code(d) == Some(code) ==> 0 <= code < 6 && d == seq![
            GgufDType::F32,
            GgufDType::F16,
            GgufDType::Q8_0,
            GgufDType::Q4_K,
            GgufDType::Q3_K,
            GgufDType::Q2_K,
        ][code as int],
        format_code(d) is None <==> d == GgufDType::Iq2Xxs || d == GgufDType::Other,
{
}

/// A pattern with a place for the layer and then one for the expert becomes the text with both
/// numbers in their places.
pub proof fn law_expert_text(a: Seq<char>, b: Seq<char>, c: Seq<char>, layer: usize, expert: usize)
    requires
        never_begins(a, '{'),
        never_begins(b, '{'),
        never_begins(c, '{'),
    ensures
        expert_text(a + "{layer}"@ + b + "{expert}"@ + c, layer, expert) == a + dec(layer as nat) + b
            + dec(expert as nat) + c,
{
    reveal_strlit("{layer}");
    reveal_strlit("{expert}");
    let l = "{layer}"@;
    let e = "{expert}"@;
    let n = dec(layer as nat);
    let m = dec(expert as nat);
    lemma_dec_value(layer as nat);
    assert(never_begins(n, '{'));
    let tail = b + e + c;
    assert(a + l + b + e + c =~= a + l + tail);
    law_replaced(a, l, tail, n);
    lemma_other_pattern(tail, b, c, n);
    let front = a + n + b;
    assert(replaced(a + l + tail, l, n) =~= front + e + c);
    assert forall|i: int| 0 <= i < front.len() implies #[trigger] front[i] != '{' by {
        if i < a.len() {
            assert(front[i] == a[i]);
        } else if i < a.len() + n.len() {
            assert(front[i] == n[i - a.len()]);
        } else {
            assert(front[i] == b[i - a.len() - n.len()]);
        }
    }
    law_replaced(front, e, c, m);
    law_replaced(c, e, c, m);
    assert(front + m + c =~= a + n + b + m + c);
}

/// Putting the layer in leaves the place of the expert alone.
proof fn lemma_other_pattern(s: Seq<char>, b: Seq<char>, c: Seq<char>, with: Seq<char>)
    requires
        s == b + "{expert}"@ + c,
        never_begins(b, '{'),
        never_begins(c, '{'),
    ensures
        replaced(s, "{layer}"@, with) == s,
    decreases b.len(),
{
    reveal_strlit("{layer}");
    reveal_strlit("{expert}");
    let l = "{layer}"@;
    let e = "{expert}"@;
    if b.len() > 0 {
        let rest = b.skip(1);
        assert forall|i: int| 0 <= i < rest.len() implies #[trigger] rest[i] != '{' by {
            assert(rest[i] == b[i + 1]);
        }
        let t = rest + e + c;
        assert(s.skip(1) =~= t);
        lemma_other_pattern(t, rest, c, with);
        assert(s[0] == b[0] && b[0] != '{');
        if s.len() >= l.len() {
            assert(s.take(l.len() as int)[0] == s[0]);
        }
        assert(seq![s[0]] + t =~= s);
    } else {
        let t = s.skip(1);
        assert(s =~= e + c);
        assert(s.take(l.len() as int)[1] == 'e');
        assert(l[1] == 'l');
        assert forall|i: int| 0 <= i < t.len() implies #[trigger] t[i] != '{' by {
            if i < e.len() - 1 {
                assert(t[i] == e[i + 1]);
            } else {
                assert(t[i] == c[i - (e.len() - 1)]);
            }
        }
        law_replaced(t, l, c, with);
        assert(seq![s[0]] + t =~= s);
    }
}

/// The dimension along which the experts run is the first one of that size.
pub proof fn law_axis_of(dims: Seq<u32>, size: int, from: int)
    requires
        0 <= from <= dims.len() <= usize::MAX,
    ensures
        match axis_of(dims, size, from) {
            Some(a) => {
                &&& from <= a < dims.len()
                &&& dims[a as int] == size
                &&& forall|i: int| from <= i < a ==> dims[i] != size
            },
            None => forall|i: int| from <= i < dims.len() ==> dims[i] != size,
        },
    decreases dims.len() - from,
{
    if from < dims.len() && dims[from] != size {
        law_axis_of(dims, size, from + 1);
    }
}

/// There are as many experts as the model says, and at least so many that there is this one.
pub proof fn law_expert_count(m: ArcModel, expert: usize)
    ensures
        m.expert_count(expert) > expert,
        m.spec.moe matches Some(s) ==> m.expert_count(expert) >= s.experts,
        m.spec.moe matches Some(s) ==> (expert < s.experts ==> m.expert_count(expert) == s.experts),
        m.spec.moe is None ==> m.expert_count(expert) == expert + 1,
{
}

} // verus!
