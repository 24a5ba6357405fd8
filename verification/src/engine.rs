//! Engine: what is known once a model was looked for and a backend tried.
//!
//! Opening a model file and loading it into a backend are the caller's; the engine takes their
//! outcomes and decides.

use vstd::prelude::*;
use vstd::string::StringExecFns;
use vstd::utf8::{encode_utf8, valid_utf8};

use crate::chat::{ChatSentinels, Ds4ChatTemplate, TemplateView};
use crate::gguf::GgufFile;
use crate::mtp::{fresh_mtp, Ds4Mtp, Ds4MtpConfig};
use crate::text::{dec, push_dec};
use crate::tokenizer::{
    byte_id, decoded, file_vocab, law_file_sentinels, law_tokenize_roundtrip, opens_as, plain_text,
    tokens_of, Ds4Tokenizer, VocabView,
};
use crate::types::{
    Ds4Backend, Ds4EngineOptions, Ds4Error, Ds4ErrorKind, Ds4Result, Ds4ThinkMode, OptionsView,
};

verus! {

// ---- Names and modes ----

/// The name of a backend.
pub open spec fn backend_name(b: Ds4Backend) -> Seq<char> {
    match b {
        Ds4Backend::Metal => "metal"@,
        Ds4Backend::Cuda => "cuda"@,
        Ds4Backend::Arc => "arc"@,
        Ds4Backend::Vulkan => "vulkan"@,
        Ds4Backend::Rocm => "rocm"@,
        Ds4Backend::Cpu => "cpu"@,
    }
}

/// The name of a backend.
pub fn ds4_backend_name(b: Ds4Backend) -> (r: &'static str)
    ensures
        r@ == backend_name(b),
{
    match b {
        Ds4Backend::Metal => "metal",
        Ds4Backend::Cuda => "cuda",
        Ds4Backend::Arc => "arc",
        Ds4Backend::Vulkan => "vulkan",
        Ds4Backend::Rocm => "rocm",
        Ds4Backend::Cpu => "cpu",
    }
}

/// `true` if the mode shows reasoning.
pub fn ds4_think_mode_enabled(mode: Ds4ThinkMode) -> (r: bool)
    ensures
        r == (mode == Ds4ThinkMode::High || mode == Ds4ThinkMode::Max),
{
    match mode {
        Ds4ThinkMode::High => true,
        Ds4ThinkMode::Max => true,
        Ds4ThinkMode::Off => false,
    }
}

/// The name of a mode.
pub fn ds4_think_mode_name(mode: Ds4ThinkMode) -> (r: &'static str)
    ensures
        r@ == match mode {
            Ds4ThinkMode::Off => "none"@,
            Ds4ThinkMode::High => "high"@,
            Ds4ThinkMode::Max => "max"@,
        },
{
    match mode {
        Ds4ThinkMode::Off => "none",
        Ds4ThinkMode::High => "high",
        Ds4ThinkMode::Max => "max",
    }
}

/// The prefix of a maximum-effort turn.
pub const THINK_MAX_PREFIX: &'static str = "<Ã¯Â½Å“DSMLÃ¯Â½Å“think_max_modeÃ¯Â½Å“enabledÃ¯Â½Å“>\n";

/// The prefix of a maximum-effort turn.
pub fn ds4_think_max_prefix() -> (r: &'static str)
    ensures
        r@ == THINK_MAX_PREFIX@,
{
    THINK_MAX_PREFIX
}

/// Context length below which the maximum-effort mode is not used.
pub const DS4_THINK_MAX_MIN_CONTEXT: u32 = 393_216;

/// Context length below which the maximum-effort mode is not used.
pub fn ds4_think_max_min_context() -> (r: u32)
    ensures
        r == DS4_THINK_MAX_MIN_CONTEXT,
{
    DS4_THINK_MAX_MIN_CONTEXT
}

/// The mode that a context allows. A negative length counts as a very large one.
pub fn ds4_think_mode_for_context(mode: Ds4ThinkMode, ctx_size: i32) -> (r: Ds4ThinkMode)
    ensures
        r == if mode == Ds4ThinkMode::Max && 0 <= ctx_size < DS4_THINK_MAX_MIN_CONTEXT {
            Ds4ThinkMode::High
        } else {
            mode
        },
{
    let unsigned: u32 = ctx_size as u32;
    assert(ctx_size < 0 ==> (ctx_size as u32) >= 0x8000_0000u32) by (bit_vector);
    if mode == Ds4ThinkMode::Max && unsigned < DS4_THINK_MAX_MIN_CONTEXT {
        Ds4ThinkMode::High
    } else {
        mode
    }
}

// ---- Memory ----

/// Estimated memory of a context.
#[derive(Debug, Clone, Copy, PartialEq, Eq, Structural, Default)]
pub struct ContextMemory {
    pub total_bytes: u64,
    pub raw_bytes: u64,
    pub compressed_bytes: u64,
    pub scratch_bytes: u64,
    pub prefill_cap: u32,
    pub raw_cap: u32,
    pub comp_cap: u32,
}

/// At least 1.
pub open spec fn at_least_one(n: int) -> int {
    if n < 1 {
        1
    } else {
        n
    }
}

/// Bytes for each position of the context.
pub open spec fn raw_factor(backend: Ds4Backend) -> int {
    if backend == Ds4Backend::Cpu {
        256
    } else {
        512
    }
}

/// Bytes for each position of a prefill chunk.
pub open spec fn scratch_factor(backend: Ds4Backend) -> int {
    if backend == Ds4Backend::Cpu {
        128
    } else {
        256
    }
}

/// Estimated bytes of a context.
pub open spec fn context_bytes(backend: Ds4Backend, ctx_size: int, prefill_chunk: int) -> int {
    at_least_one(ctx_size) * raw_factor(backend) + at_least_one(prefill_chunk) * scratch_factor(
        backend,
    ) + 4096
}

/// A longer context never needs less, and a longer one above 1 needs more.
pub proof fn law_memory_grows(backend: Ds4Backend, small: int, big: int, prefill_chunk: int)
    requires
        small <= big,
    ensures
        context_bytes(backend, small, prefill_chunk) <= context_bytes(backend, big, prefill_chunk),
        1 <= small < big ==> context_bytes(backend, small, prefill_chunk) < context_bytes(
            backend,
            big,
            prefill_chunk,
        ),
{
}

/// Estimated memory of a context without a prefill chunk.
pub fn ds4_context_memory_estimate(backend: Ds4Backend, ctx_size: usize) -> (r: ContextMemory)
    requires
        context_bytes(backend, ctx_size as int, 0) <= u64::MAX,
    ensures
        r == (ContextMemory {
            total_bytes: context_bytes(backend, ctx_size as int, 0) as u64,
            raw_bytes: (at_least_one(ctx_size as int) * raw_factor(backend)) as u64,
            compressed_bytes: 0,
            scratch_bytes: scratch_factor(backend) as u64,
            prefill_cap: 0,
            raw_cap: at_least_one(ctx_size as int) as u64 as u32,
            comp_cap: at_least_one(ctx_size as int) as u64 as u32,
        }),
{
    ds4_context_memory_estimate_with_prefill(backend, ctx_size, 0)
}

/// Estimated memory of a context.
pub fn ds4_context_memory_estimate_with_prefill(
    backend: Ds4Backend,
    ctx_size: usize,
    prefill_chunk: u32,
) -> (r: ContextMemory)
    requires
        context_bytes(backend, ctx_size as int, prefill_chunk as int) <= u64::MAX,
    ensures
        r == (ContextMemory {
            total_bytes: context_bytes(backend, ctx_size as int, prefill_chunk as int) as u64,
            raw_bytes: (at_least_one(ctx_size as int) * raw_factor(backend)) as u64,
            compressed_bytes: 0,
            scratch_bytes: (at_least_one(prefill_chunk as int) * scratch_factor(backend)) as u64,
            prefill_cap: prefill_chunk,
            raw_cap: at_least_one(ctx_size as int) as u64 as u32,
            comp_cap: at_least_one(ctx_size as int) as u64 as u32,
        }),
{
    let ctx: u64 = if ctx_size < 1 {
        1
    } else {
        ctx_size as u64
    };
    let chunk: u64 = if prefill_chunk < 1 {
        1
    } else {
        prefill_chunk as u64
    };
    let (raw_bytes, scratch_bytes): (u64, u64) = match backend {
        Ds4Backend::Cpu => (ctx * 256, chunk * 128),
        _ => (ctx * 512, chunk * 256),
    };
    ContextMemory {
        total_bytes: raw_bytes + scratch_bytes + 4096,
        raw_bytes,
        compressed_bytes: 0,
        scratch_bytes,
        prefill_cap: prefill_chunk,
        raw_cap: ctx as u32,
        comp_cap: ctx as u32,
    }
}

// ---- Opening ----

/// Dimensions of a model.
#[derive(Debug, Clone, Copy, PartialEq, Eq, Structural)]
pub struct ModelDims {
    pub vocab: usize,
    pub hidden: usize,
    pub layers: usize,
    pub n_heads: usize,
    pub head_dim: usize,
    pub ffn: usize,
}

/// A model file that was opened: its path, what was read of it, and the dimensions of the model
/// if its tensors describe one.
#[derive(Debug)]
pub struct ModelFile {
    pub path: String,
    pub gguf: GgufFile,
    pub dims: Option<ModelDims>,
}

/// The backend that was asked for cannot run the model, and the CPU is to be tried.
pub open spec fn falls_back(requested: Ds4Backend, load: Ds4Result<()>) -> bool {
    load matches Err(e) && e.kind == Ds4ErrorKind::NotImplemented && requested != Ds4Backend::Cpu
}

/// What loading came to: the backend in charge and whether a model is loaded, or the failure.
pub open spec fn load_outcome(
    requested: Ds4Backend,
    load: Ds4Result<()>,
    cpu_load: Ds4Result<()>,
) -> Result<(Ds4Backend, bool), Ds4Error> {
    match load {
        Ok(()) => Ok((requested, true)),
        Err(e) => if e.kind != Ds4ErrorKind::NotImplemented {
            Err(e)
        } else if requested == Ds4Backend::Cpu {
            Ok((requested, false))
        } else {
            match cpu_load {
                Ok(()) => Ok((Ds4Backend::Cpu, true)),
                Err(c) => if c.kind == Ds4ErrorKind::NotImplemented {
                    Ok((requested, false))
                } else {
                    Err(c)
                },
            }
        },
    }
}

/// `true` if the CPU is to be tried after the backend that was asked for.
pub fn wants_cpu_fallback(requested: Ds4Backend, load: &Ds4Result<()>) -> (r: bool)
    ensures
        r == falls_back(requested, *load),
{
    match load {
        Ok(()) => false,
        Err(e) => e.kind == Ds4ErrorKind::NotImplemented && requested != Ds4Backend::Cpu,
    }
}

fn decide_load(requested: Ds4Backend, load: Ds4Result<()>, cpu_load: Ds4Result<()>) -> (r: Result<
    (Ds4Backend, bool),
    Ds4Error,
>)
    ensures
        r == load_outcome(requested, load, cpu_load),
{
    match load {
        Ok(()) => Ok((requested, true)),
        Err(e) => {
            if e.kind != Ds4ErrorKind::NotImplemented {
                return Err(e);
            }
            if requested == Ds4Backend::Cpu {
                return Ok((requested, false));
            }
            match cpu_load {
                Ok(()) => Ok((Ds4Backend::Cpu, true)),
                Err(c) => if c.kind == Ds4ErrorKind::NotImplemented {
                    Ok((requested, false))
                } else {
                    Err(c)
                },
            }
        },
    }
}

/// Layers, vocabulary and hidden width of a model file.
pub open spec fn file_shape(file: ModelFile) -> (usize, usize, usize) {
    match file.dims {
        Some(d) => (d.layers, d.vocab, d.hidden),
        None => (
            match file.gguf.metadata.layer_count {
                Some(n) => n as usize,
                None => (at_least_one(file.gguf.tensors@.len() as int) as usize) as u32 as usize,
            },
            match file.gguf.metadata.vocab_size {
                Some(n) => n as usize,
                None => 129_280,
            },
            1,
        ),
    }
}

fn shape_of(file: &ModelFile) -> (r: (usize, usize, usize))
    ensures
        r == file_shape(*file),
{
    match &file.dims {
        Some(d) => (d.layers, d.vocab, d.hidden),
        None => {
            let layers: usize = match file.gguf.metadata.layer_count {
                Some(n) => n as usize,
                None => {
                    let n: usize = if file.gguf.tensors.len() < 1 {
                        1
                    } else {
                        file.gguf.tensors.len()
                    };
                    n as u32 as usize
                },
            };
            let vocab: usize = match file.gguf.metadata.vocab_size {
                Some(n) => n as usize,
                None => 129_280,
            };
            (layers, vocab, 1)
        },
    }
}

/// The compression ratio of a layer: every fourth layer but the first is compressed.
pub open spec fn ratio_of_layer(i: int) -> u32 {
    if i % 4 == 0 && i > 0 {
        4
    } else {
        0
    }
}

/// The compression ratios of a model.
pub open spec fn ratios(n_layers: int) -> Seq<u32> {
    Seq::new(n_layers as nat, |i: int| ratio_of_layer(i))
}

/// The highest compression ratio of a model.
pub open spec fn highest_ratio(n_layers: int) -> u32 {
    if n_layers > 4 {
        4
    } else {
        0
    }
}

/// The highest ratio is that of some layer, and no layer has a higher one.
pub proof fn law_highest_ratio(n_layers: int)
    requires
        n_layers > 0,
    ensures
        ratios(n_layers).contains(highest_ratio(n_layers)),
        forall|i: int|
            0 <= i < n_layers ==> #[trigger] ratios(n_layers)[i] <= highest_ratio(n_layers),
{
    if n_layers > 4 {
        assert(ratios(n_layers)[4] == 4);
    } else {
        assert(ratios(n_layers)[0] == 0);
    }
}

fn layer_ratios(n_layers: usize) -> (r: Vec<u32>)
    ensures
        r@ == ratios(n_layers as int),
{
    let mut out: Vec<u32> = Vec::new();
    let mut i: usize = 0;
    while i < n_layers
        invariant
            i <= n_layers,
            out@ == ratios(i as int),
        decreases n_layers - i,
    {
        out.push(
            if i % 4 == 0 && i > 0 {
                4
            } else {
                0
            },
        );
        i += 1;
        assert(out@ =~= ratios(i as int));
    }
    out
}

/// The token that the metadata gives, or another.
pub open spec fn token_or(id: Option<u32>, other: u32) -> u32 {
    match id {
        Some(id) => id,
        None => other,
    }
}

/// The sentinels of a model file, or the usual ones.
pub open spec fn file_sentinels(file: Option<ModelFile>) -> ChatSentinels {
    match file {
        Some(f) => ChatSentinels {
            bos: token_or(f.gguf.metadata.bos_token_id, 1),
            user: token_or(f.gguf.metadata.user_token_id, 3),
            assistant: token_or(f.gguf.metadata.assistant_token_id, 4),
            think_start: token_or(f.gguf.metadata.think_start_token_id, 5),
            think_end: token_or(f.gguf.metadata.think_end_token_id, 6),
            dsml: token_or(f.gguf.metadata.dsml_token_id, 7),
        },
        None => ChatSentinels {
            bos: 1,
            user: 3,
            assistant: 4,
            think_start: 5,
            think_end: 6,
            dsml: 7,
        },
    }
}

fn given_token(id: Option<u32>, other: u32) -> (r: u32)
    ensures
        r == token_or(id, other),
{
    match id {
        Some(id) => id,
        None => other,
    }
}

fn sentinels_of(file: &Option<ModelFile>) -> (r: ChatSentinels)
    ensures
        r == file_sentinels(*file),
{
    match file {
        Some(f) => ChatSentinels {
            bos: given_token(f.gguf.metadata.bos_token_id, 1),
            user: given_token(f.gguf.metadata.user_token_id, 3),
            assistant: given_token(f.gguf.metadata.assistant_token_id, 4),
            think_start: given_token(f.gguf.metadata.think_start_token_id, 5),
            think_end: given_token(f.gguf.metadata.think_end_token_id, 6),
            dsml: given_token(f.gguf.metadata.dsml_token_id, 7),
        },
        None => ChatSentinels {
            bos: 1,
            user: 3,
            assistant: 4,
            think_start: 5,
            think_end: 6,
            dsml: 7,
        },
    }
}

/// The byte-level vocabulary: byte `b` has the id `b + 1`, and 0 stands for nothing.
pub open spec fn byte_fallback(s: ChatSentinels) -> VocabView {
    VocabView {
        tokens: Seq::new(256, |b: int| seq![b as u8]),
        merges: Map::empty(),
        unk: 0,
        specials: seq![s.bos, 2u32, s.user, s.assistant, s.think_start, s.think_end, s.dsml],
        bytes: Some(Seq::new(256, |b: int| (b + 1) as u32)),
    }
}

fn byte_fallback_tokenizer(sentinels: ChatSentinels) -> (r: Ds4Result<Ds4Tokenizer>)
    ensures
        r matches Ok(t) && t@ == byte_fallback(sentinels),
{
    let mut map: [u32; 256] = [0u32; 256];
    let mut b: usize = 0;
    while b < 256
        invariant
            b <= 256,
            forall|i: int| 0 <= i < b ==> #[trigger] map@[i] == i + 1,
        decreases 256 - b,
    {
        map[b] = b as u32 + 1;
        b += 1;
    }
    assert(map@ =~= Seq::new(256, |b: int| (b + 1) as u32));
    Ds4Tokenizer::from_byte_mapping(
        map,
        0,
        sentinels.bos,
        2,
        sentinels.user,
        sentinels.assistant,
        sentinels.think_start,
        sentinels.think_end,
        sentinels.dsml,
    )
}

/// The vocabulary of an engine: that of the model file, or the byte-level one.
pub open spec fn engine_vocab(file: Option<ModelFile>) -> VocabView {
    match file {
        Some(f) => match file_vocab(f.gguf) {
            Some(v) => v,
            None => byte_fallback(file_sentinels(file)),
        },
        None => byte_fallback(file_sentinels(file)),
    }
}

fn tokenizer_for(file: &Option<ModelFile>, sentinels: ChatSentinels) -> (r: Ds4Result<Ds4Tokenizer>)
    requires
        sentinels == file_sentinels(*file),
    ensures
        r matches Ok(t) && t@ == engine_vocab(*file),
{
    if let Some(f) = file {
        let found: Option<Ds4Tokenizer> = Ds4Tokenizer::from_gguf(&f.gguf)?;
        if let Some(t) = found {
            return Ok(t);
        }
    }
    byte_fallback_tokenizer(sentinels)
}

/// An opened engine.
#[derive(Debug)]
pub struct Ds4Engine {
    pub opts: Ds4EngineOptions,
    pub file: Option<ModelFile>,
    /// The backend in charge.
    pub backend: Ds4Backend,
    /// A model is loaded into the backend.
    pub model_loaded: bool,
    pub tokenizer: Ds4Tokenizer,
    pub chat: Ds4ChatTemplate,
    pub mtp: Ds4Mtp,
    pub power_percent: u8,
    pub model_name: String,
    pub model_id: String,
    pub n_layers: usize,
    pub n_vocab: usize,
    pub compress_ratio: u32,
    pub layer_compress_ratios: Vec<u32>,
    pub hidden_f32_values: usize,
    pub routed_quant_bits: u8,
    pub has_output_head: bool,
    pub has_mtp: bool,
    pub mtp_draft_tokens: usize,
    pub sentinels: ChatSentinels,
}

/// What an engine is, given the options, the model file and the outcome of loading.
pub open spec fn is_engine(
    e: Ds4Engine,
    opts: OptionsView,
    file: Option<ModelFile>,
    backend: Ds4Backend,
    model_loaded: bool,
) -> bool {
    let shape = match file {
        Some(f) => file_shape(f),
        None => (0usize, 0usize, 0usize),
    };
    &&& e.opts@ == opts
    &&& e.file == file
    &&& e.backend == backend
    &&& e.model_loaded == model_loaded
    &&& e.tokenizer@ == engine_vocab(file)
    &&& e.sentinels == file_sentinels(file)
    &&& e.chat@ == (TemplateView { vocab: engine_vocab(file), sentinels: file_sentinels(file) })
    &&& e.mtp@ == fresh_mtp(
        Ds4MtpConfig { draft_tokens: opts.mtp_draft_tokens, margin: opts.mtp_margin },
    )
    &&& e.power_percent == if opts.power_percent < 100 {
        opts.power_percent
    } else {
        100
    }
    &&& e.model_name@ == match file {
        Some(f) => f.path@,
        None => Seq::empty(),
    }
    &&& e.model_id@ == match file {
        Some(_) => if shape.0 >= 61 {
            "ds4-pro"@
        } else {
            "ds4-flash"@
        },
        None => Seq::empty(),
    }
    &&& e.n_layers == shape.0
    &&& e.n_vocab == shape.1
    &&& e.hidden_f32_values == shape.2
    &&& e.layer_compress_ratios@ == ratios(shape.0 as int)
    &&& e.compress_ratio == highest_ratio(shape.0 as int)
    &&& e.routed_quant_bits == 0
    &&& e.has_output_head
    &&& e.has_mtp == (opts.mtp_draft_tokens > 0 || (file is Some && opts.mtp_path is Some))
    &&& e.mtp_draft_tokens == opts.mtp_draft_tokens
}

/// The error for options that name no model.
pub open spec fn no_model_path(e: Ds4Error) -> bool {
    e.is(Ds4ErrorKind::InvalidArgument, "model_path is empty"@)
}

/// Refuses options that name no model.
pub fn check_options(opts: &Ds4EngineOptions) -> (r: Ds4Result<()>)
    ensures
        match r {
            Ok(()) => opts@.model_path.len() > 0,
            Err(e) => opts@.model_path.len() == 0 && no_model_path(e),
        },
{
    if opts.model_path.as_str().is_empty() {
        return Err(
            Ds4Error::new(Ds4ErrorKind::InvalidArgument, String::from_str("model_path is empty")),
        );
    }
    Ok(())
}

impl Ds4Engine {
    /// Opens an engine.
    ///
    /// `file` is the model file, if there is one that can be read. `load` is what loading it into
    /// the backend asked for came to, `cpu_load` what loading it into the CPU backend came to
    /// after that; without a file neither is looked at, and the second is looked at only where
    /// the first reports that it is not implemented. An engine without a model can still
    /// tokenize.
    pub fn open(
        opts: Ds4EngineOptions,
        file: Option<ModelFile>,
        load: Ds4Result<()>,
        cpu_load: Ds4Result<()>,
    ) -> (r: Ds4Result<Self>)
        ensures
            if opts@.model_path.len() == 0 {
                r matches Err(e) && no_model_path(e)
            } else if file is None {
                r matches Ok(e) && is_engine(e, opts@, file, opts.backend, false)
            } else {
                match load_outcome(opts.backend, load, cpu_load) {
                    Ok((backend, loaded)) => r matches Ok(e) && is_engine(
                        e,
                        opts@,
                        file,
                        backend,
                        loaded,
                    ),
                    Err(e) => r == Err::<Self, Ds4Error>(e),
                }
            },
    {
        check_options(&opts)?;
        let (backend, model_loaded): (Ds4Backend, bool) = if file.is_some() {
            decide_load(opts.backend, load, cpu_load)?
        } else {
            (opts.backend, false)
        };
        let (n_layers, n_vocab, hidden_f32_values): (usize, usize, usize) = match &file {
            Some(f) => shape_of(f),
            None => (0, 0, 0),
        };
        let has_mtp: bool = opts.mtp_draft_tokens > 0 || (file.is_some()
            && opts.mtp_path.is_some());
        let model_name: String = match &file {
            Some(f) => f.path.clone(),
            None => String::new(),
        };
        let model_id: String = match &file {
            Some(_) => if n_layers >= 61 {
                String::from_str("ds4-pro")
            } else {
                String::from_str("ds4-flash")
            },
            None => String::new(),
        };
        let layer_compress_ratios: Vec<u32> = layer_ratios(n_layers);
        let compress_ratio: u32 = if n_layers > 4 {
            4
        } else {
            0
        };
        let sentinels = sentinels_of(&file);
        let tokenizer = tokenizer_for(&file, sentinels)?;
        let chat = Ds4ChatTemplate::new(tokenizer.clone()).with_sentinels(sentinels);
        let mtp = Ds4Mtp::with_config(
            Ds4MtpConfig { draft_tokens: opts.mtp_draft_tokens, margin: opts.mtp_margin },
        );
        let power_percent: u8 = if opts.power_percent < 100 {
            opts.power_percent
        } else {
            100
        };
        let mtp_draft_tokens: usize = opts.mtp_draft_tokens;
        Ok(
            Ds4Engine {
                opts,
                file,
                backend,
                model_loaded,
                tokenizer,
                chat,
                mtp,
                power_percent,
                model_name,
                model_id,
                n_layers,
                n_vocab,
                compress_ratio,
                layer_compress_ratios,
                hidden_f32_values,
                routed_quant_bits: 0,
                has_output_head: true,
                has_mtp,
                mtp_draft_tokens,
                sentinels,
            },
        )
    }

    /// Fails where there is no model to evaluate a token with.
    pub fn check_token_model(&self) -> (r: Ds4Result<()>)
        ensures
            match r {
                Ok(()) => self.model_loaded,
                Err(e) => !self.model_loaded && e.is(
                    Ds4ErrorKind::NotImplemented,
                    "engine has no loaded model for token logits"@,
                ),
            },
    {
        if self.model_loaded {
            Ok(())
        } else {
            Err(
                Ds4Error::new(
                    Ds4ErrorKind::NotImplemented,
                    String::from_str("engine has no loaded model for token logits"),
                ),
            )
        }
    }

    /// Fails where there is no model to evaluate a sequence with.
    pub fn check_sequence_model(&self) -> (r: Ds4Result<()>)
        ensures
            match r {
                Ok(()) => self.model_loaded,
                Err(e) => !self.model_loaded && e.is(
                    Ds4ErrorKind::NotImplemented,
                    "engine has no loaded model for sequence logits"@,
                ),
            },
    {
        if self.model_loaded {
            Ok(())
        } else {
            Err(
                Ds4Error::new(
                    Ds4ErrorKind::NotImplemented,
                    String::from_str("engine has no loaded model for sequence logits"),
                ),
            )
        }
    }

    /// The options that the engine was opened with.
    pub fn options(&self) -> (r: &Ds4EngineOptions)
        ensures
            *r == self.opts,
    {
        &self.opts
    }

    /// Releases the engine.
    pub fn close(self) {
    }

    /// One line that describes the engine.
    pub fn summary(&self) -> (r: String)
        ensures
            r@ == "DS4 engine: backend="@ + backend_name(self.backend) + " layers="@ + dec(
                self.n_layers as nat,
            ) + " vocab="@ + dec(self.n_vocab as nat) + " mtp="@ + (if self.has_mtp {
                "on"@
            } else {
                "off"@
            }) + " model_loaded="@ + (if self.model_loaded {
                "yes"@
            } else {
                "no"@
            }),
    {
        let mut m: String = String::from_str("DS4 engine: backend=");
        m.append(ds4_backend_name(self.backend));
        m.append(" layers=");
        push_dec(&mut m, self.n_layers as u64);
        m.append(" vocab=");
        push_dec(&mut m, self.n_vocab as u64);
        m.append(" mtp=");
        m.append(
            if self.has_mtp {
                "on"
            } else {
                "off"
            },
        );
        m.append(" model_loaded=");
        m.append(
            if self.model_loaded {
                "yes"
            } else {
                "no"
            },
        );
        m
    }

    /// Size of the vocabulary.
    pub fn vocab_size(&self) -> (r: usize)
        ensures
            r == self.n_vocab,
    {
        self.n_vocab
    }

    /// Share of the machine that may be used, in percent.
    pub fn power(&self) -> (r: u8)
        ensures
            r == self.power_percent,
    {
        self.power_percent
    }

    /// Sets the share of the machine that may be used; never more than 100 percent.
    pub fn set_power(&mut self, p: u8)
        ensures
            *final(self) == (Ds4Engine {
                power_percent: if p < 100 {
                    p
                } else {
                    100
                },
                ..*old(self)
            }),
    {
        self.power_percent = if p < 100 {
            p
        } else {
            100
        };
    }

    /// The path of the model.
    pub fn model_name(&self) -> (r: &str)
        ensures
            r@ == self.model_name@,
    {
        self.model_name.as_str()
    }

    /// The family of the model.
    pub fn model_id(&self) -> (r: &str)
        ensures
            r@ == self.model_id@,
    {
        self.model_id.as_str()
    }

    /// Number of layers.
    pub fn layer_count(&self) -> (r: usize)
        ensures
            r == self.n_layers,
    {
        self.n_layers
    }

    /// Number of elements of a hidden state.
    pub fn hidden_f32_values(&self) -> (r: usize)
        ensures
            r == self.hidden_f32_values,
    {
        self.hidden_f32_values
    }

    /// Bits of a routed expert's weights.
    pub fn routed_quant_bits(&self) -> (r: u8)
        ensures
            r == self.routed_quant_bits,
    {
        self.routed_quant_bits
    }

    /// The highest compression ratio of a layer.
    pub fn compress_ratio(&self) -> (r: u32)
        ensures
            r == self.compress_ratio,
    {
        self.compress_ratio
    }

    /// `true` if the engine has an output head.
    pub fn has_output_head(&self) -> (r: bool)
        ensures
            r == self.has_output_head,
    {
        self.has_output_head
    }

    /// `true` if drafts are on.
    pub fn has_mtp(&self) -> (r: bool)
        ensures
            r == self.has_mtp,
    {
        self.has_mtp
    }

    /// Number of draft tokens.
    pub fn mtp_draft_tokens(&self) -> (r: usize)
        ensures
            r == self.mtp_draft_tokens,
    {
        self.mtp_draft_tokens
    }

    /// The tokens that open a conversation.
    pub fn chat_begin(&self) -> (r: Vec<u32>)
        ensures
            r@ == self.chat@.opening(),
    {
        self.chat.begin()
    }

    /// The compression ratio of a layer; 0 for one that does not exist.
    pub fn layer_compress_ratio(&self, layer: usize) -> (r: u32)
        ensures
            r == if layer < self.layer_compress_ratios@.len() {
                self.layer_compress_ratios@[layer as int]
            } else {
                0
            },
    {
        if layer < self.layer_compress_ratios.len() {
            self.layer_compress_ratios[layer]
        } else {
            0
        }
    }

    /// What was read of the model file.
    pub fn gguf(&self) -> (r: Option<&GgufFile>)
        ensures
            match r {
                Some(g) => self.file matches Some(f) && f.gguf == *g,
                None => self.file is None,
            },
    {
        match &self.file {
            Some(f) => Some(&f.gguf),
            None => None,
        }
    }

    /// The tokenizer.
    pub fn tokenizer(&self) -> (r: &Ds4Tokenizer)
        ensures
            r@ == self.tokenizer@,
    {
        &self.tokenizer
    }

    /// The chat template.
    pub fn chat(&self) -> (r: &Ds4ChatTemplate)
        ensures
            r@ == self.chat@,
    {
        &self.chat
    }

    /// The sentinels.
    pub fn sentinels(&self) -> (r: ChatSentinels)
        ensures
            r == self.sentinels,
    {
        self.sentinels
    }

    /// The draft state.
    pub fn mtp(&self) -> (r: &Ds4Mtp)
        ensures
            r@ == self.mtp@,
    {
        &self.mtp
    }
}

/// Where the backend asked for is not implemented and the CPU loads the model, the CPU is in
/// charge.
pub proof fn law_cpu_fallback(requested: Ds4Backend, load: Ds4Result<()>, cpu_load: Ds4Result<()>)
    requires
        falls_back(requested, load),
        cpu_load is Ok,
    ensures
        load_outcome(requested, load, cpu_load) == Ok::<(Ds4Backend, bool), Ds4Error>(
            (Ds4Backend::Cpu, true),
        ),
{
}

// ---- Laws of an engine ----

/// What each position adds: 256 bytes to a context on the CPU and 512 elsewhere, and half as much
/// to a prefill chunk. An empty context counts as one position.
pub proof fn law_memory_per_position(backend: Ds4Backend, ctx: int, chunk: int)
    requires
        ctx >= 1,
        chunk >= 1,
    ensures
        ({
            let per: int = if backend == Ds4Backend::Cpu {
                256
            } else {
                512
            };
            let base = context_bytes(backend, ctx, chunk);
            &&& context_bytes(backend, ctx + 1, chunk) == base + per
            &&& 2 * (context_bytes(backend, ctx, chunk + 1) - base) == per
            &&& context_bytes(backend, 1, 1) == per + per / 2 + 4096
            &&& context_bytes(backend, 0, 0) == context_bytes(backend, 1, 1)
        }),
{
}

/// An engine of a model whose dimensions are known takes them as they are, and every fourth layer
/// but the first is compressed by 4.
pub proof fn law_engine_shape(
    e: Ds4Engine,
    opts: OptionsView,
    file: ModelFile,
    d: ModelDims,
    backend: Ds4Backend,
    loaded: bool,
    i: int,
)
    requires
        is_engine(e, opts, Some(file), backend, loaded),
        file.dims == Some(d),
        0 <= i < d.layers,
    ensures
        e.n_layers == d.layers,
        e.n_vocab == d.vocab,
        e.hidden_f32_values == d.hidden,
        e.layer_compress_ratios@.len() == d.layers,
        e.layer_compress_ratios@[i] == 4 <==> i >= 4 && i % 4 == 0,
        e.layer_compress_ratios@[i] == 4 || e.layer_compress_ratios@[i] == 0,
        d.layers >= 61 ==> e.model_id@ == "ds4-pro"@,
        d.layers < 61 ==> e.model_id@ == "ds4-flash"@,
        e.power_percent <= 100,
        opts.power_percent <= 100 ==> e.power_percent == opts.power_percent,
{
}

/// Where a file names a sentinel's token, the chat template puts that token, and the text of the
/// sentinel is tokenized to it.
pub proof fn law_sentinels_agree(file: ModelFile, rest: Seq<char>)
    requires
        file_vocab(file.gguf) is Some,
    ensures
        ({
            let m = file.gguf.metadata;
            let s = file_sentinels(Some(file));
            let v = engine_vocab(Some(file));
            let after = tokens_of(v, encode_utf8(rest));
            &&& m.bos_token_id matches Some(id) ==> s.bos == id && opens_as(
                v,
                "<｜begin▁of▁sentence｜>"@ + rest,
                Some(id),
                after,
            )
            &&& m.user_token_id matches Some(id) ==> s.user == id && opens_as(
                v,
                "<｜User｜>"@ + rest,
                Some(id),
                after,
            )
            &&& m.assistant_token_id matches Some(id) ==> s.assistant == id && opens_as(
                v,
                "<｜Assistant｜>"@ + rest,
                Some(id),
                after,
            )
            &&& m.think_start_token_id matches Some(id) ==> s.think_start == id && opens_as(
                v,
                "<think>"@ + rest,
                Some(id),
                after,
            )
            &&& m.think_end_token_id matches Some(id) ==> s.think_end == id && opens_as(
                v,
                "</think>"@ + rest,
                Some(id),
                after,
            )
            &&& m.dsml_token_id matches Some(id) ==> s.dsml == id && opens_as(
                v,
                "｜DSML｜"@ + rest,
                Some(id),
                after,
            )
        }),
{
    law_file_sentinels(file.gguf, engine_vocab(Some(file)), rest);
}

/// Without a vocabulary in the file the engine has a token for each byte, and a text that holds no
/// sentinel comes back from its tokens.
pub proof fn law_fallback_is_bytes(s: ChatSentinels, text: Seq<u8>)
    requires
        valid_utf8(text),
        plain_text(text),
    ensures
        decoded(byte_fallback(s), tokens_of(byte_fallback(s), text)) == text,
        forall|b: u8| #[trigger] byte_id(byte_fallback(s), b) == b + 1,
        byte_fallback(s).specials.len() == 7,
{
    law_tokenize_roundtrip(byte_fallback(s), text);
}

/// What loading comes to: a backend that loads is in charge; one that fails otherwise than by not
/// being implemented is reported; and only where it is not implemented the CPU is looked at, and
/// reported where it fails otherwise.
pub proof fn law_load_outcome(requested: Ds4Backend, load: Ds4Result<()>, cpu: Ds4Result<()>)
    ensures
        ({
            let r = load_outcome(requested, load, cpu);
            let absent = |l: Ds4Result<()>| l matches Err(e) && e.kind == Ds4ErrorKind::NotImplemented;
            &&& load is Ok ==> r == Ok::<(Ds4Backend, bool), Ds4Error>((requested, true))
            &&& load is Err && !absent(load) ==> r is Err && r->Err_0 == load->Err_0
            &&& absent(load) && requested == Ds4Backend::Cpu ==> r == Ok::<
                (Ds4Backend, bool),
                Ds4Error,
            >((requested, false))
            &&& absent(load) && requested != Ds4Backend::Cpu && cpu is Err && !absent(cpu) ==> r
                is Err && r->Err_0 == cpu->Err_0
            &&& absent(load) && requested != Ds4Backend::Cpu && absent(cpu) ==> r == Ok::<
                (Ds4Backend, bool),
                Ds4Error,
            >((requested, false))
        }),
{
}

/// An engine of a model whose dimensions are not known takes the layers and the vocabulary from the
/// metadata. Where these are missing, each tensor counts as a layer, and there are 129280 tokens.
/// An engine without a file has none of them.
pub proof fn law_engine_shape_from_metadata(
    e: Ds4Engine,
    opts: OptionsView,
    file: ModelFile,
    backend: Ds4Backend,
    loaded: bool,
    bare: Ds4Engine,
)
    requires
        is_engine(e, opts, Some(file), backend, loaded),
        is_engine(bare, opts, None, backend, loaded),
        file.dims is None,
    ensures
        file.gguf.metadata.layer_count matches Some(n) ==> e.n_layers == n,
        file.gguf.metadata.layer_count is None && 0 < file.gguf.tensors@.len() <= u32::MAX
            ==> e.n_layers == file.gguf.tensors@.len(),
        file.gguf.metadata.vocab_size matches Some(n) ==> e.n_vocab == n,
        file.gguf.metadata.vocab_size is None ==> e.n_vocab == 129_280,
        e.hidden_f32_values == 1,
        e.model_name@ == file.path@,
        bare.n_layers == 0 && bare.n_vocab == 0 && bare.hidden_f32_values == 0,
        bare.model_name@.len() == 0,
{
}

} // verus!
