//! Feed-forward blocks with routed experts on the device.
//!
//! The tensors of the experts do not stay on the device. Those of the experts that the router
//! picks are taken there for one use: the caller reads their bytes and hands over what that came
//! to.

use vstd::prelude::*;
use vstd::string::StringExecFns;

use super::backend::{
    axis_of, dtype_code, expert_text, format_code, gated_fault, gated_ffn, gated_ops, gated_value,
    law_gated_value, law_resident_names, ArcModel, ExpertNames, ExpertTensor,
};
use super::packed::without_axis;
use super::runtime::KernelId;
use super::sequence::{
    launch_add_scaled, launch_op, law_launch_does_op, op_launch, run_launch, scaled_launch,
    sizes_fit, ArcArg, ArcLaunch, LaunchView,
};
use crate::gguf::{descriptor_of, GgufDType, TensorDescriptor};
use crate::graph::{
    run_ops, Arithmetic, ExpertTensorLayout, LayerBuf, LayerOp, LayerState, LayerWeight,
};
use crate::search::replaced;
use crate::slices::copy_words;
use crate::text::{dec, push_dec};
use crate::types::{said, Ds4Result, Fault};

verus! {

/// What reading the tensors of an expert came to.
#[derive(Debug)]
pub struct ExpertData {
    pub gate: Ds4Result<Vec<u8>>,
    pub up: Ds4Result<Vec<u8>>,
    pub down: Ds4Result<Vec<u8>>,
}

/// The tensors of an expert, with the names under which they are reported.
#[derive(Debug)]
pub struct ExpertTensorSet {
    pub gate_name: String,
    pub gate: ExpertTensor,
    pub up_name: String,
    pub up: ExpertTensor,
    pub down_name: String,
    pub down: ExpertTensor,
}

/// An expert that takes part: its tensors and the kernels of its feed-forward block.
#[derive(Debug)]
pub struct ExpertRun {
    pub expert: usize,
    pub tensors: ExpertTensorSet,
    pub ops: Vec<LayerOp>,
}

/// The storage formats of the matrices of a feed-forward block.
#[derive(Debug, Clone, Copy, PartialEq, Eq, Structural)]
pub struct FfnFormats {
    pub gate: GgufDType,
    pub up: GgufDType,
    pub down: GgufDType,
}

/// The shared expert: the formats of its tensors and the kernels of its feed-forward block.
#[derive(Debug)]
pub struct SharedRun {
    pub formats: FfnFormats,
    pub ops: Vec<LayerOp>,
}

/// The feed-forward block of a layer with routed experts: the experts in the order in which their
/// results are added up, then the shared expert, where there is one.
#[derive(Debug)]
pub struct MoePlan {
    pub runs: Vec<ExpertRun>,
    pub shared: Option<SharedRun>,
}

/// The part of a block that a launch belongs to. The weights and the share that a launch uses are
/// those of its part.
#[derive(Debug, Clone, Copy, PartialEq, Eq, Structural)]
pub enum MoePart {
    /// The expert at this place of the plan.
    Expert(usize),
    Shared,
    /// The block as a whole.
    Block,
}

/// A launch of a block with routed experts.
#[derive(Debug)]
pub struct MoeStep {
    pub part: MoePart,
    pub launch: ArcLaunch,
}

/// The launches of a block with routed experts, in order. The sum starts out as `zeros` zeros.
#[derive(Debug)]
pub struct MoeLaunches {
    pub zeros: usize,
    pub steps: Vec<MoeStep>,
}

/// The tensors of the layout hold the weights of all experts.
pub open spec fn is_packed(layout: ExpertTensorLayout) -> bool {
    layout is Packed
}

/// The name of the tensor of an expert in the file.
pub open spec fn stored_name(pattern: Seq<char>, packed: bool, layer: usize, expert: usize) -> Seq<
    char,
> {
    if packed {
        replaced(pattern, "{layer}"@, dec(layer as nat))
    } else {
        expert_text(pattern, layer, expert)
    }
}

/// The pattern for gate matrices.
pub open spec fn gate_of(layout: ExpertTensorLayout) -> Seq<char> {
    match layout {
        ExpertTensorLayout::PerExpert { gate_pattern, up_pattern, down_pattern } => gate_pattern@,
        ExpertTensorLayout::Packed { gate, up, down } => gate@,
    }
}

/// The pattern for up matrices.
pub open spec fn up_of(layout: ExpertTensorLayout) -> Seq<char> {
    match layout {
        ExpertTensorLayout::PerExpert { gate_pattern, up_pattern, down_pattern } => up_pattern@,
        ExpertTensorLayout::Packed { gate, up, down } => up@,
    }
}

/// The pattern for down matrices.
pub open spec fn down_of(layout: ExpertTensorLayout) -> Seq<char> {
    match layout {
        ExpertTensorLayout::PerExpert { gate_pattern, up_pattern, down_pattern } => down_pattern@,
        ExpertTensorLayout::Packed { gate, up, down } => down@,
    }
}

/// The name under which the tensor of an expert is reported.
pub open spec fn label(name: Seq<char>, packed: bool, expert: usize) -> Seq<char> {
    if packed {
        name + "#"@ + dec(expert as nat)
    } else {
        name
    }
}

/// The first of two faults.
pub open spec fn or_else(a: Option<Fault>, b: Option<Fault>) -> Option<Fault> {
    if a is Some {
        a
    } else {
        b
    }
}

impl ArcModel {
    /// What stands against the tensor of an expert.
    pub open spec fn expert_tensor_fault(
        self,
        name: Seq<char>,
        packed: bool,
        expert: usize,
        data: Ds4Result<Vec<u8>>,
    ) -> Option<Fault> {
        let before = if packed {
            self.packed_fault(name, expert)
        } else {
            self.transient_fault(name)
        };
        if before is Some {
            before
        } else {
            match data {
                Err(e) => Some(said(e)),
                Ok(bytes) => if packed {
                    self.packed_bytes_fault(
                        descriptor_of(self.descriptors@, name).unwrap(),
                        expert,
                        bytes@.len(),
                    )
                } else {
                    None
                },
            }
        }
    }

    /// The dimensions of the tensor of an expert.
    pub open spec fn expert_dims(self, name: Seq<char>, packed: bool, expert: usize) -> Seq<u32> {
        let d = descriptor_of(self.descriptors@, name).unwrap();
        if packed {
            without_axis(
                d.dims@,
                axis_of(d.dims@, self.expert_count(expert), 0).unwrap() as int,
            )
        } else {
            d.dims@
        }
    }

    /// The tensor is the one of an expert, with what the bytes that were read hold of it.
    pub open spec fn is_expert_tensor(
        self,
        t: ExpertTensor,
        name: Seq<char>,
        packed: bool,
        expert: usize,
        bytes: Seq<u8>,
    ) -> bool {
        let d = descriptor_of(self.descriptors@, name).unwrap();
        &&& t.descriptor.name@ == label(name, packed, expert)
        &&& t.descriptor.dtype == d.dtype
        &&& t.descriptor.dims@ == self.expert_dims(name, packed, expert)
        &&& if packed {
            self.is_packed_slice(t.bytes@, d, expert, bytes)
        } else {
            t.bytes@ == bytes
        }
    }

    fn load_expert_tensor(
        &self,
        name: &str,
        packed: bool,
        expert: usize,
        data: Ds4Result<Vec<u8>>,
    ) -> (r: Ds4Result<ExpertTensor>)
        requires
            expert < usize::MAX,
            packed ==> self.packed_countable(name@),
        ensures
            match self.expert_tensor_fault(name@, packed, expert, data) {
                Some(f) => r matches Err(e) && e.says(f),
                None => r matches Ok(t) && (data matches Ok(bytes) && self.is_expert_tensor(
                    t,
                    name@,
                    packed,
                    expert,
                    bytes@,
                )),
            },
    {
        if packed {
            return self.load_packed_expert_tensor(name, expert, data);
        }
        let d: &TensorDescriptor = self.load_transient_supported_tensor(name)?;
        let bytes: Vec<u8> = match data {
            Ok(b) => b,
            Err(e) => return Err(e),
        };
        let dims: Vec<u32> = copy_words(d.dims.as_slice(), 0, d.dims.len());
        assert(dims@ =~= d.dims@);
        Ok(
            ExpertTensor {
                descriptor: TensorDescriptor { name: String::from_str(name), dims, dtype: d.dtype },
                bytes,
            },
        )
    }

    /// What stands against the tensors of an expert: its gate, its up and its down matrix, in that
    /// order.
    pub open spec fn expert_set_fault(
        self,
        layout: ExpertTensorLayout,
        layer: usize,
        expert: usize,
        data: ExpertData,
    ) -> Option<Fault> {
        let packed = is_packed(layout);
        or_else(
            self.expert_tensor_fault(
                stored_name(gate_of(layout), packed, layer, expert),
                packed,
                expert,
                data.gate,
            ),
            or_else(
                self.expert_tensor_fault(
                    stored_name(up_of(layout), packed, layer, expert),
                    packed,
                    expert,
                    data.up,
                ),
                self.expert_tensor_fault(
                    stored_name(down_of(layout), packed, layer, expert),
                    packed,
                    expert,
                    data.down,
                ),
            ),
        )
    }

    /// The set holds the three tensors of an expert.
    pub open spec fn is_expert_set(
        self,
        set: ExpertTensorSet,
        layout: ExpertTensorLayout,
        layer: usize,
        expert: usize,
        data: ExpertData,
    ) -> bool {
        let packed = is_packed(layout);
        let gate = stored_name(gate_of(layout), packed, layer, expert);
        let up = stored_name(up_of(layout), packed, layer, expert);
        let down = stored_name(down_of(layout), packed, layer, expert);
        &&& set.gate_name@ == label(gate, packed, expert)
        &&& set.up_name@ == label(up, packed, expert)
        &&& set.down_name@ == label(down, packed, expert)
        &&& data.gate matches Ok(bytes)
        &&& self.is_expert_tensor(set.gate, gate, packed, expert, bytes@)
        &&& data.up matches Ok(bytes)
        &&& self.is_expert_tensor(set.up, up, packed, expert, bytes@)
        &&& data.down matches Ok(bytes)
        &&& self.is_expert_tensor(set.down, down, packed, expert, bytes@)
    }

    /// The bytes of the tensors of an expert can be counted on this machine.
    pub open spec fn expert_countable(
        self,
        layout: ExpertTensorLayout,
        layer: usize,
        expert: usize,
    ) -> bool {
        is_packed(layout) ==> {
            &&& self.packed_countable(stored_name(gate_of(layout), true, layer, expert))
            &&& self.packed_countable(stored_name(up_of(layout), true, layer, expert))
            &&& self.packed_countable(stored_name(down_of(layout), true, layer, expert))
        }
    }

    /// Takes the three tensors of an expert. `data` is what reading their bytes came to.
    pub fn load_expert_tensor_set(
        &self,
        layout: &ExpertTensorLayout,
        layer: usize,
        expert: usize,
        data: ExpertData,
    ) -> (r: Ds4Result<ExpertTensorSet>)
        requires
            expert < usize::MAX,
            self.expert_countable(*layout, layer, expert),
        ensures
            match self.expert_set_fault(*layout, layer, expert, data) {
                Some(f) => r matches Err(e) && e.says(f),
                None => r matches Ok(set) && self.is_expert_set(
                    set,
                    *layout,
                    layer,
                    expert,
                    data,
                ),
            },
    {
        let names: ExpertNames = ArcModel::expert_names(layout, layer, expert);
        let packed: bool = names.packed;
        let gate: ExpertTensor = self.load_expert_tensor(
            names.gate.as_str(),
            packed,
            expert,
            data.gate,
        )?;
        let up: ExpertTensor = self.load_expert_tensor(names.up.as_str(), packed, expert, data.up)?;
        let down: ExpertTensor = self.load_expert_tensor(
            names.down.as_str(),
            packed,
            expert,
            data.down,
        )?;
        Ok(
            ExpertTensorSet {
                gate_name: expert_label(names.gate, packed, expert),
                gate,
                up_name: expert_label(names.up, packed, expert),
                up,
                down_name: expert_label(names.down, packed, expert),
                down,
            },
        )
    }

    /// What stands against an expert that takes part: its tensors, then the shapes of its block.
    #[verifier::opaque]
    pub open spec fn expert_run_fault(
        self,
        layout: ExpertTensorLayout,
        layer: usize,
        expert: usize,
        data: ExpertData,
    ) -> Option<Fault> {
        let packed = is_packed(layout);
        let gate = stored_name(gate_of(layout), packed, layer, expert);
        let up = stored_name(up_of(layout), packed, layer, expert);
        let down = stored_name(down_of(layout), packed, layer, expert);
        or_else(
            self.expert_set_fault(layout, layer, expert, data),
            gated_fault(
                self.expert_dims(gate, packed, expert),
                label(gate, packed, expert),
                self.expert_dims(up, packed, expert),
                label(up, packed, expert),
                self.expert_dims(down, packed, expert),
                label(down, packed, expert),
            ),
        )
    }

    /// The run is that of an expert.
    #[verifier::opaque]
    pub open spec fn is_expert_run(
        self,
        run: ExpertRun,
        layout: ExpertTensorLayout,
        layer: usize,
        expert: usize,
        data: ExpertData,
    ) -> bool {
        let packed = is_packed(layout);
        let gate = stored_name(gate_of(layout), packed, layer, expert);
        let up = stored_name(up_of(layout), packed, layer, expert);
        let down = stored_name(down_of(layout), packed, layer, expert);
        &&& run.expert == expert
        &&& self.is_expert_set(run.tensors, layout, layer, expert, data)
        &&& run.ops@ == gated_ops(
            self.expert_dims(gate, packed, expert),
            self.expert_dims(up, packed, expert),
            self.expert_dims(down, packed, expert),
        )
    }

    /// Lays out the feed-forward block of one expert.
    #[verifier::rlimit(40)]
    pub fn expert_run(
        &self,
        layout: &ExpertTensorLayout,
        layer: usize,
        expert: usize,
        data: ExpertData,
    ) -> (r: Ds4Result<ExpertRun>)
        requires
            expert < usize::MAX,
            self.expert_countable(*layout, layer, expert),
        ensures
            match self.expert_run_fault(*layout, layer, expert, data) {
                Some(f) => r matches Err(e) && e.says(f),
                None => r matches Ok(run) && run.ready() && run.runs_tensors() && self.is_expert_run(
                    run,
                    *layout,
                    layer,
                    expert,
                    data,
                ),
            },
    {
        proof {
            reveal(ArcModel::expert_run_fault);
            reveal(ArcModel::is_expert_run);
        }
        let tensors: ExpertTensorSet = self.load_expert_tensor_set(layout, layer, expert, data)?;
        let ops: Vec<LayerOp> = gated_ffn(
            &tensors.gate.descriptor,
            tensors.gate_name.as_str(),
            &tensors.up.descriptor,
            tensors.up_name.as_str(),
            &tensors.down.descriptor,
            tensors.down_name.as_str(),
        )?;
        let run = ExpertRun { expert, tensors, ops };
        assert(run.runs_tensors());
        assert(all_gated(run.ops@)) by {
            assert forall|j: int| 0 <= j < run.ops@.len() implies is_gated(
                #[trigger] run.ops@[j],
            ) by {}
        }
        Ok(run)
    }

    /// The first fault of the experts that take part, from place `from` on.
    pub open spec fn runs_fault(
        self,
        layout: ExpertTensorLayout,
        layer: usize,
        selected: Seq<usize>,
        data: Seq<ExpertData>,
        from: int,
    ) -> Option<Fault>
        decreases selected.len() - from,
    {
        if from < 0 || from >= selected.len() {
            None
        } else {
            or_else(
                self.expert_run_fault(layout, layer, selected[from], data[from]),
                self.runs_fault(layout, layer, selected, data, from + 1),
            )
        }
    }

    /// The formats of three tensors on the device.
    pub open spec fn resident_formats(self, gate: Seq<char>, up: Seq<char>, down: Seq<char>) ->
        FfnFormats {
        FfnFormats {
            gate: self.resident(gate).unwrap().dtype,
            up: self.resident(up).unwrap().dtype,
            down: self.resident(down).unwrap().dtype,
        }
    }

    /// The shared expert takes part: all three of its tensors are named and on the device.
    pub open spec fn has_shared(
        self,
        gate: Option<String>,
        up: Option<String>,
        down: Option<String>,
    ) -> bool {
        match (gate, up, down) {
            (Some(g), Some(u), Some(d)) => self.resident(g@) is Some && self.resident(u@) is Some
                && self.resident(d@) is Some,
            _ => false,
        }
    }

    fn expert_runs(
        &self,
        layout: &ExpertTensorLayout,
        layer: usize,
        selected: &[usize],
        data: Vec<ExpertData>,
    ) -> (r: Ds4Result<Vec<ExpertRun>>)
        requires
            selected@.len() == data@.len(),
            forall|i: int|
                0 <= i < selected@.len() ==> #[trigger] selected@[i] < usize::MAX
                    && self.expert_countable(*layout, layer, selected@[i]),
        ensures
            match self.runs_fault(*layout, layer, selected@, data@, 0) {
                Some(f) => r matches Err(e) && e.says(f),
                None => r matches Ok(runs) && self.are_runs(
                    runs@,
                    *layout,
                    layer,
                    selected@,
                    data@,
                ),
            },
    {
        let ghost all = data@;
        let mut rest: Vec<ExpertData> = data;
        let mut runs: Vec<ExpertRun> = Vec::new();
        let mut i: usize = 0;
        assert(all.skip(0) =~= all);
        while i < selected.len()
            invariant
                i <= selected@.len(),
                selected@.len() == all.len(),
                all == data@,
                rest@ == all.skip(i as int),
                forall|j: int|
                    0 <= j < selected@.len() ==> #[trigger] selected@[j] < usize::MAX
                        && self.expert_countable(*layout, layer, selected@[j]),
                self.runs_fault(*layout, layer, selected@, all, 0) == self.runs_fault(
                    *layout,
                    layer,
                    selected@,
                    all,
                    i as int,
                ),
                runs@.len() == i,
                forall|j: int|
                    0 <= j < i ==> (#[trigger] runs@[j]).ready() && runs@[j].runs_tensors()
                        && self.is_expert_run(
                        runs@[j],
                        *layout,
                        layer,
                        selected@[j],
                        all[j],
                    ),
            decreases selected@.len() - i,
        {
            let one: ExpertData = rest.remove(0);
            assert(one == all[i as int]);
            assert(rest@ =~= all.skip(i + 1));
            let run: ExpertRun = self.expert_run(layout, layer, selected[i], one)?;
            runs.push(run);
            i += 1;
        }
        Ok(runs)
    }

    /// Lays out a feed-forward block with routed experts. `selected` are the experts that the
    /// router picked, and `data` is what reading the tensors of each came to. An expert that
    /// cannot run is reported, the first one in order, before the shared expert is looked at.
    pub fn launch_routed_moe_ffn(
        &self,
        layout: &ExpertTensorLayout,
        layer: usize,
        selected: &[usize],
        data: Vec<ExpertData>,
        shared_gate: &Option<String>,
        shared_up: &Option<String>,
        shared_down: &Option<String>,
    ) -> (r: Ds4Result<MoePlan>)
        requires
            selected@.len() == data@.len(),
            forall|i: int|
                0 <= i < selected@.len() ==> #[trigger] selected@[i] < usize::MAX
                    && self.expert_countable(*layout, layer, selected@[i]),
        ensures
            match self.runs_fault(*layout, layer, selected@, data@, 0) {
                Some(f) => r matches Err(e) && e.says(f),
                None => if !self.has_shared(*shared_gate, *shared_up, *shared_down) {
                    &&& r matches Ok(p)
                    &&& p.ready()
                    &&& p.shared is None
                    &&& self.are_runs(p.runs@, *layout, layer, selected@, data@)
                } else {
                    let g = shared_gate.unwrap()@;
                    let u = shared_up.unwrap()@;
                    let d = shared_down.unwrap()@;
                    match self.resident_ffn_fault(g, u, d) {
                        Some(f) => r matches Err(e) && e.says(f),
                        None => {
                            &&& r matches Ok(p)
                            &&& p.ready()
                            &&& p.shared matches Some(s)
                            &&& s.ops@ == self.resident_ffn_ops(g, u, d)
                            &&& s.formats == self.resident_formats(g, u, d)
                            &&& self.are_runs(p.runs@, *layout, layer, selected@, data@)
                        },
                    }
                },
            },
    {
        let runs: Vec<ExpertRun> = self.expert_runs(layout, layer, selected, data)?;
        let ops: Option<Vec<LayerOp>> = self.shared_ffn(shared_gate, shared_up, shared_down)?;
        let shared: Option<SharedRun> = match (ops, shared_gate, shared_up, shared_down) {
            (Some(ops), Some(g), Some(u), Some(d)) => {
                let gate: &TensorDescriptor = self.tensor(g.as_str())?;
                let up: &TensorDescriptor = self.tensor(u.as_str())?;
                let down: &TensorDescriptor = self.tensor(d.as_str())?;
                let formats = FfnFormats { gate: gate.dtype, up: up.dtype, down: down.dtype };
                proof {
                    law_resident_names(self.descriptors@, self.spec.block_kind, g@);
                    law_resident_names(self.descriptors@, self.spec.block_kind, u@);
                    law_resident_names(self.descriptors@, self.spec.block_kind, d@);
                }
                Some(SharedRun { formats, ops })
            },
            _ => None,
        };
        Ok(MoePlan { runs, shared })
    }

    /// The runs are those of the experts that were picked, in order.
    pub open spec fn are_runs(
        self,
        runs: Seq<ExpertRun>,
        layout: ExpertTensorLayout,
        layer: usize,
        selected: Seq<usize>,
        data: Seq<ExpertData>,
    ) -> bool {
        &&& runs.len() == selected.len()
        &&& forall|j: int|
            0 <= j < runs.len() ==> (#[trigger] runs[j]).ready() && runs[j].runs_tensors()
                && self.is_expert_run(
                runs[j],
                layout,
                layer,
                selected[j],
                data[j],
            )
    }
}

// ---- Launches ----

impl FfnFormats {
    /// The kernels know the formats.
    pub open spec fn known(self) -> bool {
        &&& format_code(self.gate) is Some
        &&& format_code(self.up) is Some
        &&& format_code(self.down) is Some
    }

    /// The number of the format of an operation's weight; 0 where it has none.
    pub open spec fn code(self, op: LayerOp) -> i32 {
        match op {
            LayerOp::Matvec { from, weight, to, in_dim, out_dim } => match weight {
                LayerWeight::FfnUp => format_code(self.up).unwrap(),
                LayerWeight::FfnDown => format_code(self.down).unwrap(),
                _ => format_code(self.gate).unwrap(),
            },
            _ => 0,
        }
    }

    fn op_code(self, op: LayerOp) -> (c: i32)
        requires
            self.known(),
        ensures
            c == self.code(op),
    {
        let format: GgufDType = match op {
            LayerOp::Matvec { from, weight, to, in_dim, out_dim } => match weight {
                LayerWeight::FfnUp => self.up,
                LayerWeight::FfnDown => self.down,
                _ => self.gate,
            },
            _ => return 0,
        };
        match dtype_code(format) {
            Some(c) => c,
            None => 0,
        }
    }
}

/// The operation is a product with a matrix or a gated product, and its result goes neither to the
/// hidden state nor to the sum.
pub open spec fn is_gated(op: LayerOp) -> bool {
    match op {
        LayerOp::Matvec { from, weight, to, in_dim, out_dim } => to != LayerBuf::X && to
            != LayerBuf::Sum,
        LayerOp::SiluProduct { gate, up, n } => gate != LayerBuf::X && gate != LayerBuf::Sum,
        _ => false,
    }
}

/// All operations are those of a gated feed-forward block.
pub open spec fn all_gated(ops: Seq<LayerOp>) -> bool {
    forall|j: int| 0 <= j < ops.len() ==> is_gated(#[trigger] ops[j])
}

impl ExpertRun {
    /// The formats of the expert's tensors.
    pub open spec fn formats(self) -> FfnFormats {
        FfnFormats {
            gate: self.tensors.gate.descriptor.dtype,
            up: self.tensors.up.descriptor.dtype,
            down: self.tensors.down.descriptor.dtype,
        }
    }

    /// The kernels of the expert can be launched.
    pub open spec fn ready(self) -> bool {
        self.formats().known() && all_gated(self.ops@)
    }

    /// The kernels are those of a gated block of the expert's tensors.
    pub open spec fn runs_tensors(self) -> bool {
        self.ops@ == gated_ops(
            self.tensors.gate.descriptor.dims@,
            self.tensors.up.descriptor.dims@,
            self.tensors.down.descriptor.dims@,
        )
    }
}

/// A launch of a block with routed experts, as a value.
pub struct StepView {
    pub part: MoePart,
    pub launch: LaunchView,
}

impl View for MoeStep {
    type V = StepView;

    open spec fn view(&self) -> StepView {
        StepView { part: self.part, launch: self.launch@ }
    }
}

/// Launches as values.
pub open spec fn step_views(steps: Seq<MoeStep>) -> Seq<StepView> {
    Seq::new(steps.len(), |i: int| steps[i]@)
}

/// The launches of the kernels of an expert, in order.
pub open spec fn block_steps(
    part: MoePart,
    ops: Seq<LayerOp>,
    formats: FfnFormats,
    hidden: usize,
) -> Seq<StepView> {
    Seq::new(
        ops.len(),
        |j: int| (StepView { part, launch: op_launch(ops[j], hidden, formats.code(ops[j])) }),
    )
}

/// The launch that adds the result of a routed expert to the sum, times the expert's share.
pub open spec fn expert_added(place: int, hidden: usize) -> StepView {
    StepView {
        part: MoePart::Expert(place as usize),
        launch: scaled_launch(LayerBuf::Sum, LayerBuf::Down, hidden),
    }
}

/// The launch that adds the result of the shared expert to the sum.
pub open spec fn shared_added(hidden: usize) -> StepView {
    StepView {
        part: MoePart::Shared,
        launch: op_launch(
            LayerOp::Add { to: LayerBuf::Sum, from: LayerBuf::Down, n: hidden },
            hidden,
            0,
        ),
    }
}

/// The launch that adds the sum to the hidden state.
pub open spec fn sum_added(hidden: usize) -> StepView {
    StepView {
        part: MoePart::Block,
        launch: op_launch(
            LayerOp::Add { to: LayerBuf::X, from: LayerBuf::Sum, n: hidden },
            hidden,
            0,
        ),
    }
}

/// The launches of routed experts: for each in turn its kernels, then the addition of its result.
pub open spec fn runs_steps(runs: Seq<ExpertRun>, hidden: usize) -> Seq<StepView>
    decreases runs.len(),
{
    if runs.len() == 0 {
        Seq::empty()
    } else {
        let place = runs.len() - 1;
        let run = runs.last();
        runs_steps(runs.drop_last(), hidden) + block_steps(
            MoePart::Expert(place as usize),
            run.ops@,
            run.formats(),
            hidden,
        ).push(expert_added(place, hidden))
    }
}

/// The launches of the shared expert, where there is one: its kernels, then the addition of its
/// result.
pub open spec fn shared_steps(shared: Option<SharedRun>, hidden: usize) -> Seq<StepView> {
    match shared {
        Some(s) => block_steps(MoePart::Shared, s.ops@, s.formats, hidden).push(
            shared_added(hidden),
        ),
        None => Seq::empty(),
    }
}

/// The launches of a block with routed experts: the routed experts, the shared expert, and last
/// the addition of the sum to the hidden state.
pub open spec fn moe_steps(plan: MoePlan, hidden: usize) -> Seq<StepView> {
    (runs_steps(plan.runs@, hidden) + shared_steps(plan.shared, hidden)).push(sum_added(hidden))
}

proof fn lemma_runs_prefix(runs: Seq<ExpertRun>, k: int, hidden: usize)
    requires
        0 <= k <= runs.len(),
    ensures
        runs_steps(runs.take(k), hidden).is_prefix_of(runs_steps(runs, hidden)),
    decreases runs.len(),
{
    if k == runs.len() {
        assert(runs.take(k) =~= runs);
    } else {
        let less = runs.drop_last();
        assert(less.take(k) =~= runs.take(k));
        lemma_runs_prefix(less, k, hidden);
        let part = runs_steps(runs.take(k), hidden);
        let all = runs_steps(runs, hidden);
        assert(runs_steps(less, hidden).is_prefix_of(all));
        assert(part =~= all.subrange(0, part.len() as int));
    }
}

/// The result of each routed expert is added to the sum, times the expert's share, directly behind
/// the expert's kernels and before anything of the next expert.
pub proof fn law_experts_added(plan: MoePlan, k: int, hidden: usize)
    requires
        0 <= k < plan.runs@.len(),
    ensures
        ({
            let before = runs_steps(plan.runs@.take(k), hidden).len() as int;
            let n = plan.runs@[k].ops@.len() as int;
            let steps = moe_steps(plan, hidden);
            &&& runs_steps(plan.runs@.take(k + 1), hidden).len() == before + n + 1
            &&& before + n < steps.len()
            &&& steps.subrange(before, before + n) == block_steps(
                MoePart::Expert(k as usize),
                plan.runs@[k].ops@,
                plan.runs@[k].formats(),
                hidden,
            )
            &&& steps[before + n] == expert_added(k, hidden)
        }),
{
    let runs = plan.runs@;
    let upto = runs.take(k + 1);
    assert(upto.drop_last() =~= runs.take(k));
    assert(upto.last() == runs[k]);
    lemma_runs_prefix(runs, k + 1, hidden);
    let before = runs_steps(runs.take(k), hidden).len() as int;
    let n = runs[k].ops@.len() as int;
    let steps = moe_steps(plan, hidden);
    let part = runs_steps(upto, hidden);
    assert(part.len() == before + n + 1);
    assert forall|i: int| 0 <= i < part.len() implies steps[i] == part[i] by {
        assert(runs_steps(runs, hidden)[i] == part[i]);
    }
    assert(steps.subrange(before, before + n) =~= block_steps(
        MoePart::Expert(k as usize),
        runs[k].ops@,
        runs[k].formats(),
        hidden,
    ));
}

/// Where the result of a launch of a feed-forward block goes: the last argument of a product with a
/// matrix, and the first of the other kernels.
pub open spec fn target(l: LaunchView) -> ArcArg {
    if l.kernel == KernelId::MatvecWeight {
        l.args.last()
    } else {
        l.args[0]
    }
}

/// A launch that leaves the hidden state alone, and the sum too unless it adds an expert's result
/// to it.
pub open spec fn is_inner(step: StepView, hidden: usize) -> bool {
    &&& target(step.launch) != ArcArg::Buffer(LayerBuf::X)
    &&& target(step.launch) == ArcArg::Buffer(LayerBuf::Sum) ==> match step.part {
        MoePart::Expert(place) => step == expert_added(place as int, hidden),
        MoePart::Shared => step == shared_added(hidden),
        MoePart::Block => false,
    }
}

/// The hidden state is changed once, by the last launch, which adds the sum to it. The sum is
/// changed only by adding the results of experts.
pub proof fn law_sum_added_last(plan: MoePlan, hidden: usize)
    requires
        plan.ready(),
    ensures
        moe_steps(plan, hidden).last() == sum_added(hidden),
        forall|i: int|
            0 <= i < moe_steps(plan, hidden).len() - 1 ==> is_inner(
                #[trigger] moe_steps(plan, hidden)[i],
                hidden,
            ),
{
    let runs = runs_steps(plan.runs@, hidden);
    lemma_runs_inner(plan.runs@, hidden);
    let steps = moe_steps(plan, hidden);
    assert forall|i: int| 0 <= i < steps.len() - 1 implies is_inner(
        #[trigger] steps[i],
        hidden,
    ) by {
        if i < runs.len() {
            assert(steps[i] == runs[i]);
        } else {
            let s = plan.shared.unwrap();
            lemma_block_inner(MoePart::Shared, s.ops@, s.formats, hidden);
            assert(steps[i] == shared_steps(plan.shared, hidden)[i - runs.len()]);
        }
    }
}

proof fn lemma_block_inner(
    part: MoePart,
    ops: Seq<LayerOp>,
    formats: FfnFormats,
    hidden: usize,
)
    requires
        all_gated(ops),
    ensures
        forall|j: int|
            0 <= j < ops.len() ==> is_inner(
                #[trigger] block_steps(part, ops, formats, hidden)[j],
                hidden,
            ),
{
    let steps = block_steps(part, ops, formats, hidden);
    assert forall|j: int| 0 <= j < ops.len() implies is_inner(#[trigger] steps[j], hidden) by {
        assert(is_gated(ops[j]));
    }
}

proof fn lemma_runs_inner(runs: Seq<ExpertRun>, hidden: usize)
    requires
        forall|i: int| 0 <= i < runs.len() ==> (#[trigger] runs[i]).ready(),
    ensures
        forall|i: int|
            0 <= i < runs_steps(runs, hidden).len() ==> is_inner(
                #[trigger] runs_steps(runs, hidden)[i],
                hidden,
            ),
    decreases runs.len(),
{
    if runs.len() > 0 {
        let less = runs.drop_last();
        let run = runs.last();
        let part = MoePart::Expert((runs.len() - 1) as usize);
        assert forall|i: int| 0 <= i < less.len() implies (#[trigger] less[i]).ready() by {
            assert(less[i] == runs[i]);
        }
        assert(runs[runs.len() - 1].ready());
        lemma_runs_inner(less, hidden);
        lemma_block_inner(part, run.ops@, run.formats(), hidden);
        let first = runs_steps(less, hidden);
        let block = block_steps(part, run.ops@, run.formats(), hidden);
        let steps = runs_steps(runs, hidden);
        assert forall|i: int| 0 <= i < steps.len() implies is_inner(
            #[trigger] steps[i],
            hidden,
        ) by {
            if i < first.len() {
                assert(steps[i] == first[i]);
            } else if i < first.len() + block.len() {
                assert(steps[i] == block[i - first.len()]);
            } else {
                assert(steps[i] == expert_added(runs.len() - 1, hidden));
            }
        }
    }
}

fn push_block(
    out: &mut Vec<MoeStep>,
    part: MoePart,
    ops: &Vec<LayerOp>,
    formats: FfnFormats,
    hidden: usize,
)
    requires
        formats.known(),
        all_gated(ops@),
    ensures
        step_views(final(out)@) == step_views(old(out)@) + block_steps(
            part,
            ops@,
            formats,
            hidden,
        ),
{
    let ghost before = step_views(out@);
    let ghost all = block_steps(part, ops@, formats, hidden);
    let mut j: usize = 0;
    assert(before + all.take(0) =~= before);
    while j < ops.len()
        invariant
            j <= ops@.len(),
            formats.known(),
            all_gated(ops@),
            all == block_steps(part, ops@, formats, hidden),
            step_views(out@) == before + all.take(j as int),
        decreases ops@.len() - j,
    {
        let launch: ArcLaunch = launch_op(ops[j], hidden, formats.op_code(ops[j]));
        assert((StepView { part, launch: launch@ }) == all[j as int]);
        push_step(out, part, launch);
        j += 1;
        assert(step_views(out@) =~= before + all.take(j as int));
    }
    assert(all.take(j as int) =~= all);
}

fn push_step(out: &mut Vec<MoeStep>, part: MoePart, launch: ArcLaunch)
    ensures
        step_views(final(out)@) == step_views(old(out)@).push(
            (StepView { part, launch: launch@ }),
        ),
{
    let ghost before = step_views(out@);
    let ghost view = StepView { part, launch: launch@ };
    out.push(MoeStep { part, launch });
    assert(step_views(out@) =~= before.push(view));
}

impl MoePlan {
    /// All kernels of the plan can be launched.
    pub open spec fn ready(self) -> bool {
        &&& forall|i: int| 0 <= i < self.runs@.len() ==> (#[trigger] self.runs@[i]).ready()
        &&& self.shared matches Some(s) ==> s.formats.known() && all_gated(s.ops@)
    }

    /// Lays out the launches of the block on a hidden state of this size: for each routed expert
    /// its kernels and the addition of its result to the sum, then the same of the shared expert,
    /// and last the addition of the sum to the hidden state.
    pub fn launches(&self, hidden: usize) -> (r: MoeLaunches)
        requires
            self.ready(),
        ensures
            r.zeros == hidden,
            step_views(r.steps@) == moe_steps(*self, hidden),
    {
        let mut steps: Vec<MoeStep> = Vec::new();
        let mut i: usize = 0;
        assert(self.runs@.take(0) =~= Seq::<ExpertRun>::empty());
        assert(step_views(steps@) =~= runs_steps(self.runs@.take(0), hidden));
        while i < self.runs.len()
            invariant
                i <= self.runs@.len(),
                self.ready(),
                step_views(steps@) == runs_steps(self.runs@.take(i as int), hidden),
            decreases self.runs@.len() - i,
        {
            let run: &ExpertRun = &self.runs[i];
            let formats = FfnFormats {
                gate: run.tensors.gate.descriptor.dtype,
                up: run.tensors.up.descriptor.dtype,
                down: run.tensors.down.descriptor.dtype,
            };
            let ghost before = step_views(steps@);
            push_block(&mut steps, MoePart::Expert(i), &run.ops, formats, hidden);
            push_step(
                &mut steps,
                MoePart::Expert(i),
                launch_add_scaled(LayerBuf::Sum, LayerBuf::Down, hidden),
            );
            proof {
                let upto = self.runs@.take(i + 1);
                assert(upto.drop_last() =~= self.runs@.take(i as int));
                assert(upto.last() == *run);
                assert(step_views(steps@) =~= runs_steps(upto, hidden));
            }
            i += 1;
        }
        assert(self.runs@.take(i as int) =~= self.runs@);
        let ghost routed = step_views(steps@);
        match &self.shared {
            Some(s) => {
                push_block(&mut steps, MoePart::Shared, &s.ops, s.formats, hidden);
                let add = LayerOp::Add { to: LayerBuf::Sum, from: LayerBuf::Down, n: hidden };
                push_step(&mut steps, MoePart::Shared, launch_op(add, hidden, 0));
            },
            None => {},
        }
        assert(step_views(steps@) =~= routed + shared_steps(self.shared, hidden));
        let add = LayerOp::Add { to: LayerBuf::X, from: LayerBuf::Sum, n: hidden };
        push_step(&mut steps, MoePart::Block, launch_op(add, hidden, 0));
        MoeLaunches { zeros: hidden, steps }
    }
}

fn expert_label(name: String, packed: bool, expert: usize) -> (r: String)
    ensures
        r@ == label(name@, packed, expert),
{
    let mut name: String = name;
    if packed {
        name.append("#");
        push_dec(&mut name, expert as u64);
    }
    name
}

// ---- What the launches come to ----

/// The state after the first `n` launches. The weights and the share that a launch uses are those
/// of its part, so each part has an arithmetic of its own.
pub open spec fn run_steps(
    of: spec_fn(MoePart) -> Arithmetic,
    s: LayerState,
    steps: Seq<StepView>,
    n: nat,
) -> LayerState
    decreases n,
{
    if n == 0 {
        s
    } else {
        run_launch(
            of(steps[n - 1].part),
            run_steps(of, s, steps, (n - 1) as nat),
            steps[n - 1].launch,
        )
    }
}

/// The sizes of an expert's matrices can be handed to a kernel.
pub open spec fn sizes_of_run_fit(run: ExpertRun) -> bool {
    forall|j: int| 0 <= j < run.ops@.len() ==> sizes_fit(#[trigger] run.ops@[j])
}

/// What an expert makes of the input of the block.
pub open spec fn expert_value(of: spec_fn(MoePart) -> Arithmetic, run: ExpertRun, place: int, input: Seq<
    u32,
>) -> Seq<u32> {
    gated_value(
        of(MoePart::Expert(place as usize)),
        input,
        run.tensors.gate.descriptor.dims@,
        run.tensors.up.descriptor.dims@,
        run.tensors.down.descriptor.dims@,
    )
}

/// The sum of the results of experts, each times its share, from `zero` on.
pub open spec fn experts_total(
    of: spec_fn(MoePart) -> Arithmetic,
    runs: Seq<ExpertRun>,
    hidden: usize,
    input: Seq<u32>,
    zero: Seq<u32>,
) -> Seq<u32>
    decreases runs.len(),
{
    if runs.len() == 0 {
        zero
    } else {
        let place = runs.len() - 1;
        (of(MoePart::Expert(place as usize)).scaled)(
            experts_total(of, runs.drop_last(), hidden, input, zero),
            expert_value(of, runs.last(), place, input),
            hidden,
        )
    }
}

/// Whatever the arithmetic is, the launches of a block with routed experts and no shared one add to
/// the hidden state the sum, over the experts that take part, of what each makes of the block's
/// input times its share.
pub proof fn law_moe_value(
    of: spec_fn(MoePart) -> Arithmetic,
    plan: MoePlan,
    hidden: usize,
    s: LayerState,
)
    requires
        plan.ready(),
        plan.shared is None,
        hidden <= i32::MAX,
        forall|i: int|
            0 <= i < plan.runs@.len() ==> sizes_of_run_fit(#[trigger] plan.runs@[i])
                && plan.runs@[i].runs_tensors(),
    ensures
        ({
            let steps = moe_steps(plan, hidden);
            let r = run_steps(of, s, steps, steps.len());
            let input = s.bufs[LayerBuf::FfnIn];
            let total = experts_total(of, plan.runs@, hidden, input, s.bufs[LayerBuf::Sum]);
            &&& r.bufs[LayerBuf::X] == (of(MoePart::Block).sum)(s.bufs[LayerBuf::X], total, hidden)
            &&& r.k == s.k
            &&& r.v == s.v
        }),
{
    let runs = runs_steps(plan.runs@, hidden);
    let steps = moe_steps(plan, hidden);
    assert(steps =~= runs + seq![sum_added(hidden)]);
    lemma_runs_value(of, plan.runs@, hidden, s);
    lemma_steps_concat(of, s, runs, seq![sum_added(hidden)], 1);
    let mid = run_steps(of, s, runs, runs.len());
    reveal_with_fuel(run_steps, 2);
    lemma_sum_added(of, mid, hidden);
}

/// With a shared expert whose kernels are those of a gated block, what it makes of the block's
/// input is added to the sum before the sum is added to the hidden state.
pub proof fn law_moe_shared_value(
    of: spec_fn(MoePart) -> Arithmetic,
    plan: MoePlan,
    hidden: usize,
    s: LayerState,
    shared: SharedRun,
    gate: Seq<u32>,
    up: Seq<u32>,
    down: Seq<u32>,
)
    requires
        plan.ready(),
        plan.shared == Some(shared),
        shared.ops@ == gated_ops(gate, up, down),
        hidden <= i32::MAX,
        forall|i: int|
            0 <= i < plan.runs@.len() ==> sizes_of_run_fit(#[trigger] plan.runs@[i])
                && plan.runs@[i].runs_tensors(),
        forall|j: int| 0 <= j < shared.ops@.len() ==> sizes_fit(#[trigger] shared.ops@[j]),
    ensures
        ({
            let steps = moe_steps(plan, hidden);
            let r = run_steps(of, s, steps, steps.len());
            let input = s.bufs[LayerBuf::FfnIn];
            let total = experts_total(of, plan.runs@, hidden, input, s.bufs[LayerBuf::Sum]);
            let both = (of(MoePart::Shared).sum)(
                total,
                gated_value(of(MoePart::Shared), input, gate, up, down),
                hidden,
            );
            &&& r.bufs[LayerBuf::X] == (of(MoePart::Block).sum)(s.bufs[LayerBuf::X], both, hidden)
            &&& r.k == s.k
            &&& r.v == s.v
        }),
{
    let runs = runs_steps(plan.runs@, hidden);
    let block = block_steps(MoePart::Shared, shared.ops@, shared.formats, hidden);
    let steps = moe_steps(plan, hidden);
    let tail = seq![shared_added(hidden), sum_added(hidden)];
    assert(steps =~= (runs + block) + tail);
    lemma_runs_value(of, plan.runs@, hidden, s);
    lemma_steps_concat(of, s, runs, block, block.len());
    let mid = run_steps(of, s, runs, runs.len());
    let a = of(MoePart::Shared);
    lemma_block_value(of, MoePart::Shared, shared.ops@, shared.formats, hidden, mid, block.len());
    law_gated_value(a, mid, gate, up, down);
    let after = run_steps(of, s, runs + block, runs.len() + block.len());
    lemma_steps_concat(of, s, runs + block, tail, 2);
    reveal_with_fuel(run_steps, 3);
    let add = LayerOp::Add { to: LayerBuf::Sum, from: LayerBuf::Down, n: hidden };
    law_launch_does_op(a, after, add, hidden, 0);
    let then = run_launch(a, after, shared_added(hidden).launch);
    lemma_sum_added(of, then, hidden);
}

proof fn lemma_sum_added(of: spec_fn(MoePart) -> Arithmetic, s: LayerState, hidden: usize)
    requires
        hidden <= i32::MAX,
    ensures
        ({
            let a = of(MoePart::Block);
            let r = run_launch(a, s, sum_added(hidden).launch);
            &&& r.bufs[LayerBuf::X] == (a.sum)(s.bufs[LayerBuf::X], s.bufs[LayerBuf::Sum], hidden)
            &&& r.k == s.k
            &&& r.v == s.v
        }),
{
    let add = LayerOp::Add { to: LayerBuf::X, from: LayerBuf::Sum, n: hidden };
    law_launch_does_op(of(MoePart::Block), s, add, hidden, 0);
}

proof fn lemma_steps_concat(
    of: spec_fn(MoePart) -> Arithmetic,
    s: LayerState,
    first: Seq<StepView>,
    second: Seq<StepView>,
    n: nat,
)
    requires
        n <= second.len(),
    ensures
        run_steps(of, s, first + second, first.len() + n) == run_steps(
            of,
            run_steps(of, s, first, first.len()),
            second,
            n,
        ),
    decreases n,
{
    if n == 0 {
        lemma_steps_prefix(of, s, first, second, first.len());
    } else {
        lemma_steps_concat(of, s, first, second, (n - 1) as nat);
        assert((first + second)[first.len() + n - 1] == second[n - 1]);
        assert((first.len() + n - 1) as nat == first.len() + (n - 1) as nat);
    }
}

proof fn lemma_steps_prefix(
    of: spec_fn(MoePart) -> Arithmetic,
    s: LayerState,
    first: Seq<StepView>,
    second: Seq<StepView>,
    n: nat,
)
    requires
        n <= first.len(),
    ensures
        run_steps(of, s, first + second, n) == run_steps(of, s, first, n),
    decreases n,
{
    if n > 0 {
        lemma_steps_prefix(of, s, first, second, (n - 1) as nat);
        assert((first + second)[n - 1] == first[n - 1]);
    }
}

proof fn lemma_block_value(
    of: spec_fn(MoePart) -> Arithmetic,
    part: MoePart,
    ops: Seq<LayerOp>,
    formats: FfnFormats,
    hidden: usize,
    s: LayerState,
    n: nat,
)
    requires
        n <= ops.len(),
        forall|j: int| 0 <= j < ops.len() ==> sizes_fit(#[trigger] ops[j]),
    ensures
        run_steps(of, s, block_steps(part, ops, formats, hidden), n) == run_ops(
            of(part),
            s,
            ops,
            n,
        ),
    decreases n,
{
    if n > 0 {
        lemma_block_value(of, part, ops, formats, hidden, s, (n - 1) as nat);
        let op = ops[n - 1];
        assert(sizes_fit(op));
        law_launch_does_op(
            of(part),
            run_ops(of(part), s, ops, (n - 1) as nat),
            op,
            hidden,
            formats.code(op),
        );
    }
}

proof fn lemma_runs_value(
    of: spec_fn(MoePart) -> Arithmetic,
    runs: Seq<ExpertRun>,
    hidden: usize,
    s: LayerState,
)
    requires
        hidden <= i32::MAX,
        forall|i: int| 0 <= i < runs.len() ==> (#[trigger] runs[i]).ready(),
        forall|i: int|
            0 <= i < runs.len() ==> sizes_of_run_fit(#[trigger] runs[i]) && runs[i].runs_tensors(),
    ensures
        ({
            let steps = runs_steps(runs, hidden);
            let r = run_steps(of, s, steps, steps.len());
            &&& r.bufs[LayerBuf::X] == s.bufs[LayerBuf::X]
            &&& r.bufs[LayerBuf::FfnIn] == s.bufs[LayerBuf::FfnIn]
            &&& r.bufs[LayerBuf::Sum] == experts_total(
                of,
                runs,
                hidden,
                s.bufs[LayerBuf::FfnIn],
                s.bufs[LayerBuf::Sum],
            )
            &&& r.k == s.k
            &&& r.v == s.v
        }),
    decreases runs.len(),
{
    if runs.len() > 0 {
        let less = runs.drop_last();
        let place = runs.len() - 1;
        let run = runs.last();
        assert forall|i: int| 0 <= i < less.len() implies (#[trigger] less[i]).ready()
            && sizes_of_run_fit(less[i]) && less[i].runs_tensors() by {
            assert(less[i] == runs[i]);
        }
        assert(runs[place].ready() && sizes_of_run_fit(runs[place]) && runs[place].runs_tensors());
        lemma_runs_value(of, less, hidden, s);
        let first = runs_steps(less, hidden);
        let part = MoePart::Expert(place as usize);
        let a = of(part);
        let block = block_steps(part, run.ops@, run.formats(), hidden);
        let added = seq![expert_added(place, hidden)];
        assert(runs_steps(runs, hidden) =~= (first + block) + added);
        let mid = run_steps(of, s, first, first.len());
        lemma_steps_concat(of, s, first, block, block.len());
        lemma_block_value(of, part, run.ops@, run.formats(), hidden, mid, block.len());
        law_gated_value(
            a,
            mid,
            run.tensors.gate.descriptor.dims@,
            run.tensors.up.descriptor.dims@,
            run.tensors.down.descriptor.dims@,
        );
        let after = run_steps(of, s, first + block, first.len() + block.len());
        lemma_steps_concat(of, s, first + block, added, 1);
        reveal_with_fuel(run_steps, 2);
        let l = scaled_launch(LayerBuf::Sum, LayerBuf::Down, hidden);
        assert((hidden as i32) as usize == hidden);
        assert(run_launch(a, after, l).bufs[LayerBuf::Sum] == (a.scaled)(
            after.bufs[LayerBuf::Sum],
            after.bufs[LayerBuf::Down],
            hidden,
        ));
    }
}

/// The formats that the kernels are told: each matrix's own, by the number that the kernels have
/// for it.
pub proof fn law_codes_by_matrix(f: FfnFormats, gate: Seq<u32>, up: Seq<u32>, down: Seq<u32>)
    requires
        f.known(),
    ensures
        ({
            let ops = gated_ops(gate, up, down);
            &&& ops.len() == 4
            &&& format_code(f.gate) == Some(f.code(ops[0]))
            &&& format_code(f.up) == Some(f.code(ops[1]))
            &&& format_code(f.down) == Some(f.code(ops[3]))
        }),
{
}

} // verus!
