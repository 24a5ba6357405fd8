//! Types shared by the engine, the backends and the distributed layer.

use vstd::prelude::*;

verus! {

/// What kind of failure an error reports.
#[derive(Debug, Clone, Copy, PartialEq, Eq, Structural)]
pub enum Ds4ErrorKind {
    InvalidArgument,
    NotImplemented,
    Io,
    Backend,
    Model,
    Tokenizer,
    OutOfMemory,
    Other,
}

/// An error: its kind and a message for the reader.
#[derive(Debug, Clone)]
pub struct Ds4Error {
    pub kind: Ds4ErrorKind,
    pub message: String,
}

/// Result of an operation that can fail with a `Ds4Error`.
pub type Ds4Result<T> = Result<T, Ds4Error>;

impl Ds4Error {
    /// Builds an error.
    pub fn new(kind: Ds4ErrorKind, message: String) -> (e: Self)
        ensures
            e.is(kind, message@),
    {
        Ds4Error { kind, message }
    }

    /// The error has this kind and this message.
    pub open spec fn is(self, kind: Ds4ErrorKind, message: Seq<char>) -> bool {
        self.kind == kind && self.message@ == message
    }
}

/// What an error says.
pub struct Fault {
    pub kind: Ds4ErrorKind,
    pub message: Seq<char>,
}

/// The fault of this kind and with this message.
pub open spec fn fault(kind: Ds4ErrorKind, message: Seq<char>) -> Option<Fault> {
    Some(Fault { kind, message })
}

/// What this error says.
pub open spec fn said(e: Ds4Error) -> Fault {
    Fault { kind: e.kind, message: e.message@ }
}

impl Ds4Error {
    /// The error says this.
    pub open spec fn says(self, f: Fault) -> bool {
        self.is(f.kind, f.message)
    }
}

/// Compute backends that an engine can be asked for.
#[derive(Debug, Clone, Copy, PartialEq, Eq, Structural)]
pub enum Ds4Backend {
    Cpu,
    Cuda,
    Arc,
    Vulkan,
    Rocm,
    Metal,
}

/// How much visible reasoning a chat turn asks for.
#[derive(Debug, Clone, Copy, PartialEq, Eq, Structural)]
pub enum Ds4ThinkMode {
    Off,
    High,
    Max,
}

/// Role of a peer in a distributed run.
#[derive(Debug, Clone, Copy, PartialEq, Eq, Structural)]
pub enum Ds4DistributedRole {
    Standalone,
    Coordinator,
    Worker,
}

/// Quantisation of the routed experts.
#[derive(Debug, Clone, Copy, PartialEq, Eq, Structural)]
pub enum Ds4QuantKind {
    Q8_0,
    Q4_K,
    Q3_K,
    Q2_K,
    Iq2Xxs,
    F16,
    F32,
}

/// Layers that a peer runs in a distributed run.
#[derive(Debug, Clone, Copy, PartialEq, Eq, Structural)]
pub struct Ds4LayerSlice {
    pub start: usize,
    pub end: usize,
    pub has_output: bool,
    /// `true` if the slice was asked for.
    pub set: bool,
}

/// How an engine takes part in a distributed run.
#[derive(Debug, Clone, Copy, PartialEq, Eq, Structural)]
pub struct Ds4DistributedOptions {
    pub role: Ds4DistributedRole,
    pub layers: Ds4LayerSlice,
    /// Width of the activations, 0 for the default.
    pub activation_bits: u8,
}

/// What a rewrite of the live token sequence came to.
#[derive(Debug, Clone, Copy, PartialEq, Eq, Structural)]
pub enum Ds4RewriteStatus {
    Done,
    RebuildNeeded,
    RewriteError,
}

/// How an engine is to be opened.
#[derive(Debug)]
pub struct Ds4EngineOptions {
    pub model_path: String,
    pub mtp_path: Option<String>,
    pub backend: Ds4Backend,
    pub n_threads: usize,
    pub prefill_chunk: usize,
    pub mtp_draft_tokens: usize,
    /// The bit pattern of the margin.
    pub mtp_margin: u32,
    pub power_percent: u8,
    pub distributed: Option<Ds4DistributedOptions>,
}

/// What options hold.
pub struct OptionsView {
    pub model_path: Seq<char>,
    pub mtp_path: Option<Seq<char>>,
    pub backend: Ds4Backend,
    pub n_threads: usize,
    pub prefill_chunk: usize,
    pub mtp_draft_tokens: usize,
    pub mtp_margin: u32,
    pub power_percent: u8,
    pub distributed: Option<Ds4DistributedOptions>,
}

impl View for Ds4EngineOptions {
    type V = OptionsView;

    open spec fn view(&self) -> OptionsView {
        OptionsView {
            model_path: self.model_path@,
            mtp_path: match self.mtp_path {
                Some(p) => Some(p@),
                None => None,
            },
            backend: self.backend,
            n_threads: self.n_threads,
            prefill_chunk: self.prefill_chunk,
            mtp_draft_tokens: self.mtp_draft_tokens,
            mtp_margin: self.mtp_margin,
            power_percent: self.power_percent,
            distributed: self.distributed,
        }
    }
}

/// Options that name no model and ask for the CPU.
pub open spec fn default_options() -> OptionsView {
    OptionsView {
        model_path: Seq::empty(),
        mtp_path: None,
        backend: Ds4Backend::Cpu,
        n_threads: 1,
        prefill_chunk: 512,
        mtp_draft_tokens: 0,
        mtp_margin: 0,
        power_percent: 100,
        distributed: None,
    }
}

impl Default for Ds4EngineOptions {
    fn default() -> (o: Self)
        ensures
            o@ == default_options(),
    {
        Ds4EngineOptions {
            model_path: String::new(),
            mtp_path: None,
            backend: Ds4Backend::Cpu,
            n_threads: 1,
            prefill_chunk: 512,
            mtp_draft_tokens: 0,
            mtp_margin: 0,
            power_percent: 100,
            distributed: None,
        }
    }
}

} // verus!
