use rand::rngs::StdRng;
use rand::{RngCore, SeedableRng};

use ds4::backend_cpu::backend::{CpuBackend, LoadedTensor, TensorData};
use ds4::chat::{ChatSentinels, Ds4ChatTemplate};
use ds4::engine::{
    check_options, ds4_backend_name, ds4_context_memory_estimate,
    ds4_context_memory_estimate_with_prefill, ds4_think_max_min_context, ds4_think_max_prefix,
    ds4_think_mode_enabled, ds4_think_mode_for_context, ds4_think_mode_name, wants_cpu_fallback,
    Ds4Engine, ModelDims, ModelFile,
};
use ds4::gguf::{
    GgufDType, GgufEntry, GgufFile, GgufMetadata, GgufValue, TensorDescriptor,
};
use ds4::kv::{KvCache, DEFAULT_COMPRESSED_DIM, DEFAULT_HEAD_DIM, DEFAULT_INDEXER_DIM};
use ds4::mtp::Ds4Mtp;
use ds4::sampler::{
    argmax, argmax_excluding, drawn_candidate, finite_max, logprob_of, nucleus_len, sample_start,
    top_ids, SampleStart,
};
use ds4::search::replace_all;
use ds4::session::Ds4Session;
use ds4::tokenizer::{token_string_to_bytes, BpeVocab, Ds4Tokenizer};
use ds4::tokenizer_data::{match_special_at, pre_tokenize};
use ds4::types::{
    Ds4Backend, Ds4EngineOptions, Ds4Error, Ds4ErrorKind, Ds4Result, Ds4RewriteStatus,
    Ds4ThinkMode,
};
use ds4::vocab::MergeTable;

fn bits(values: &[f32]) -> Vec<u32> {
    values.iter().map(|v| v.to_bits()).collect()
}

fn floats(values: &[u32]) -> Vec<f32> {
    values.iter().map(|v| f32::from_bits(*v)).collect()
}

fn not_here() -> Ds4Error {
    Ds4Error::new(Ds4ErrorKind::NotImplemented, "not here".to_string())
}

// ---- Tokens ----

fn byte_map() -> [u32; 256] {
    let mut map = [0u32; 256];
    for b in 0u32..256 {
        map[b as usize] = b + 1;
    }
    map
}

fn ascii_tokenizer() -> Ds4Tokenizer {
    Ds4Tokenizer::from_byte_mapping(byte_map(), 0, 1000, 1001, 1002, 1003, 1004, 1005, 1006)
        .expect("tokenizer")
}

#[test]
fn tokenize_pieces_split_digits() {
    let t = ascii_tokenizer();
    let toks = t.tokenize("1234").expect("tokenize");
    assert_eq!(toks, vec![50u32, 51, 52, 53]);
}

#[test]
fn round_trip_ascii() {
    let t = ascii_tokenizer();
    let s = "hello world";
    let toks = t.tokenize(s).expect("tokenize");
    assert_eq!(toks[0], b'h' as u32 + 1);
    assert_eq!(toks[4], b'o' as u32 + 1);
    assert_eq!(toks[5], b' ' as u32 + 1);
    assert_eq!(toks[6], b'w' as u32 + 1);
    assert_eq!(t.detokenize(&toks).expect("detokenize"), s);
}

#[test]
fn bpe_merge_uses_lowest_rank_pair() {
    let mut merges = MergeTable::new();
    merges.insert(0, 1, 0);
    let vocab = BpeVocab::new(
        vec![b"h".to_vec(), b"i".to_vec(), b"hi".to_vec()],
        merges,
        0,
        0,
        0,
        0,
        0,
        0,
        0,
        0,
    )
    .expect("vocab");
    let tokenizer = Ds4Tokenizer::from_vocab(vocab).expect("tokenizer");
    assert_eq!(tokenizer.tokenize("hi").expect("tokenize"), vec![2]);
    assert_eq!(tokenizer.detokenize(&[2]).expect("detokenize"), "hi");
}

#[test]
fn detokenize_rejects_unknown_token_id() {
    let t = ascii_tokenizer();
    let err = t.detokenize(&[300]).err().unwrap();
    assert_eq!(err.kind, Ds4ErrorKind::Tokenizer);
}

#[test]
fn detokenize_rejects_bytes_that_are_no_text() {
    let t = ascii_tokenizer();
    let err = t.detokenize(&[0xff + 1]).err().unwrap();
    assert_eq!(err.kind, Ds4ErrorKind::Tokenizer);
}

#[test]
fn token_string_hex_byte_decodes_to_raw_byte() {
    assert_eq!(token_string_to_bytes("<0x0A>"), vec![b'\n']);
    assert_eq!(token_string_to_bytes("<0xGG>"), b"<0xGG>".to_vec());
}

#[test]
fn special_sentinel_emits_id() {
    let t = ascii_tokenizer();
    let toks = t.tokenize("<\u{ff5c}User\u{ff5c}>hi").expect("tokenize");
    assert_eq!(toks[0], 1002);
    assert_eq!(toks[1], b'h' as u32 + 1);
}

#[test]
fn empty_input_yields_empty() {
    let t = ascii_tokenizer();
    let toks = t.tokenize("").expect("tokenize");
    assert!(toks.is_empty());
}

#[test]
fn digit_groups_split_into_three_or_less() {
    let pieces = pre_tokenize("1234567");
    assert_eq!(pieces, vec!["123", "456", "7"]);
}

#[test]
fn letter_runs_stay_together() {
    let pieces = pre_tokenize("hello world");
    assert_eq!(pieces, vec!["hello", " world"]);
}

#[test]
fn punctuation_joins_following_letters() {
    let pieces = pre_tokenize("_var x");
    assert_eq!(pieces[0], "_var");
}

#[test]
fn trailing_newlines_attach_to_punct_run() {
    let pieces = pre_tokenize(";\nfoo");
    assert_eq!(pieces[0], ";\n");
}

#[test]
fn whitespace_then_newline_is_one_piece() {
    let pieces = pre_tokenize("   \nfoo");
    assert_eq!(pieces[0], "   \n");
}

#[test]
fn cjk_runs_stay_together() {
    let pieces = pre_tokenize("你好world");
    assert_eq!(pieces[0], "你好");
    assert_eq!(pieces[1], "world");
}

#[test]
fn special_sentinels_match() {
    assert!(match_special_at("<｜User｜>hello", 1, 2, 3, 4, 5, 6, 7).is_some());
    assert_eq!(match_special_at("<think>", 1, 2, 3, 4, 5, 6, 7), Some((5, 7)));
    assert_eq!(match_special_at("hello", 1, 2, 3, 4, 5, 6, 7), None);
}

#[test]
fn pieces_make_the_text_again() {
    let text = "Hello, 世界! 12345 \n\n  x_y\tz…";
    assert_eq!(pre_tokenize(text).concat(), text);
}

// ---- Chat ----

fn ct() -> Ds4ChatTemplate {
    let t = Ds4Tokenizer::from_byte_mapping(byte_map(), 0, 1, 2, 3, 4, 5, 6, 7).expect("tokenizer");
    Ds4ChatTemplate::new(t).with_sentinels(ChatSentinels {
        bos: 1,
        user: 3,
        assistant: 4,
        think_start: 5,
        think_end: 6,
        dsml: 7,
    })
}

#[test]
fn begin_emits_bos_and_assistant() {
    let c = ct();
    let out = c.begin();
    assert_eq!(out, vec![1u32, 4]);
}

#[test]
fn encode_prompt_includes_role_sentinel_and_prefix() {
    let c = ct();
    let out = c.encode_prompt("", "hi", Ds4ThinkMode::Off);
    assert_eq!(out[0], 1);
    assert_eq!(out[1], 4);
    assert_eq!(out[2], 3);
    assert_eq!(out[3], b'\n' as u32 + 1);
    assert_eq!(out[4], b'h' as u32 + 1);
    assert_eq!(out[5], b'i' as u32 + 1);
    assert_eq!(out[6], 4);
    assert_eq!(out[7], b'\n' as u32 + 1);
}

#[test]
fn thinking_prompt_opens_a_thought() {
    let c = ct();
    let plain = c.encode_prompt("", "hi", Ds4ThinkMode::Off);
    let thinking = c.encode_prompt("", "hi", Ds4ThinkMode::High);
    assert_ne!(plain, thinking);
    assert!(thinking.contains(&5));
}

// ---- Engine ----

fn options(path: &str) -> Ds4EngineOptions {
    let mut o = Ds4EngineOptions::default();
    o.model_path = path.to_string();
    o
}

fn without_model(o: Ds4EngineOptions) -> Ds4Engine {
    let missing = Ds4Error::new(Ds4ErrorKind::Io, "no such file".to_string());
    Ds4Engine::open(o, None, Err(missing.clone()), Err(missing)).expect("open")
}

#[test]
fn engine_open_with_empty_path_errors() {
    let err = check_options(&Ds4EngineOptions::default()).unwrap_err();
    assert_eq!(err.kind, Ds4ErrorKind::InvalidArgument);
    let err = Ds4Engine::open(
        Ds4EngineOptions::default(),
        None,
        Err(not_here()),
        Err(not_here()),
    )
    .err()
    .expect("expected error for empty path");
    assert_eq!(err.kind, Ds4ErrorKind::InvalidArgument);
}

#[test]
fn engine_open_synthesizes_handle_for_missing_path() {
    let e = without_model(options("nope/does-not-exist.gguf"));
    assert_eq!(e.power(), 100);
    assert!(e.has_output_head());
    assert!(!e.model_loaded, "no model when path is invalid");
    assert!(e.check_token_model().is_err());
    assert!(e.check_sequence_model().is_err());
}

#[test]
fn options_accessor_returns_engine_options() {
    let mut o = options("nope.gguf");
    o.prefill_chunk = 1024;
    let e = without_model(o);
    assert_eq!(e.options().prefill_chunk, 1024);
}

#[test]
fn chat_begin_delegates_to_chat_template() {
    let e = without_model(options("missing.gguf"));
    assert_eq!(e.chat_begin(), vec![1, 4]);
}

#[test]
fn backend_name_match_helper() {
    assert_eq!(ds4_backend_name(Ds4Backend::Cpu), "cpu");
    assert_eq!(ds4_backend_name(Ds4Backend::Metal), "metal");
    assert_eq!(ds4_backend_name(Ds4Backend::Vulkan), "vulkan");
}

#[test]
fn think_mode_helpers() {
    assert!(ds4_think_mode_enabled(Ds4ThinkMode::High));
    assert!(!ds4_think_mode_enabled(Ds4ThinkMode::Off));
    assert_eq!(ds4_think_max_min_context(), 393_216);
    let m = ds4_think_mode_for_context(Ds4ThinkMode::Max, 1024);
    assert_eq!(m, Ds4ThinkMode::High);
    assert_eq!(
        ds4_think_mode_for_context(Ds4ThinkMode::Max, 393_216),
        Ds4ThinkMode::Max
    );
    assert!(!ds4_think_mode_name(Ds4ThinkMode::Max).is_empty());
    assert!(!ds4_think_max_prefix().is_empty());
}

#[test]
fn memory_estimate_grows_with_context() {
    let small = ds4_context_memory_estimate(Ds4Backend::Cpu, 1024);
    let big = ds4_context_memory_estimate(Ds4Backend::Cpu, 8192);
    assert!(big.total_bytes > small.total_bytes);
    let chunked = ds4_context_memory_estimate_with_prefill(Ds4Backend::Cpu, 8192, 64);
    assert!(chunked.total_bytes > small.total_bytes);
}

#[test]
fn types_re_exports_resolve() {
    let opts = Ds4EngineOptions::default();
    assert_eq!(opts.backend, Ds4Backend::Cpu);
}

#[test]
fn power_is_a_percentage() {
    let mut e = without_model(options("missing.gguf"));
    e.set_power(250);
    assert_eq!(e.power(), 100);
    e.set_power(40);
    assert_eq!(e.power(), 40);
}

const HIDDEN: usize = 8;
const VOCAB: usize = 16;

const TENSOR_NAMES: [&str; 12] = [
    "token_embd.weight",
    "output_norm.weight",
    "output.weight",
    "blk.0.attn_norm.weight",
    "blk.0.attn_q.weight",
    "blk.0.attn_k.weight",
    "blk.0.attn_v.weight",
    "blk.0.attn_out.weight",
    "blk.0.ffn_norm.weight",
    "blk.0.ffn_gate.weight",
    "blk.0.ffn_up.weight",
    "blk.0.ffn_down.weight",
];

fn synth_dims(name: &str) -> Vec<u32> {
    let (h, v) = (HIDDEN as u32, VOCAB as u32);
    if name == "token_embd.weight" {
        vec![v, h]
    } else if name == "output.weight" {
        vec![h, v]
    } else if name.ends_with("norm.weight") {
        vec![h]
    } else {
        vec![h, h]
    }
}

fn synth_tokens() -> Vec<String> {
    let names = [
        "<unk>", "<bos>", "<eos>", "a", "b", "c", "d", "e", "h", "i", "hi", "x", "y", "z", "0",
        "1",
    ];
    names.iter().map(|s| s.to_string()).collect()
}

fn synth_file() -> GgufFile {
    let mut metadata = GgufMetadata::default();
    metadata.layer_count = Some(1);
    metadata.head_count = Some(1);
    metadata.vocab_size = Some(VOCAB as u32);
    GgufFile {
        metadata,
        kv: vec![
            GgufEntry {
                key: "tokenizer.ggml.tokens".to_string(),
                value: GgufValue::ArrayStr(synth_tokens()),
            },
            GgufEntry {
                key: "tokenizer.ggml.merges".to_string(),
                value: GgufValue::ArrayStr(vec!["h i".to_string()]),
            },
        ],
        tensors: TENSOR_NAMES
            .iter()
            .map(|name| TensorDescriptor {
                name: name.to_string(),
                dims: synth_dims(name),
                dtype: GgufDType::F32,
            })
            .collect(),
    }
}

fn synth_model_file() -> ModelFile {
    ModelFile {
        path: "synth.gguf".to_string(),
        gguf: synth_file(),
        dims: Some(ModelDims {
            vocab: VOCAB,
            hidden: HIDDEN,
            layers: 1,
            n_heads: 1,
            head_dim: HIDDEN,
            ffn: HIDDEN,
        }),
    }
}

fn synth_engine(backend: Ds4Backend, load: Ds4Result<()>) -> Ds4Engine {
    let mut o = options("synth.gguf");
    o.backend = backend;
    Ds4Engine::open(o, Some(synth_model_file()), load, Ok(())).expect("open")
}

#[test]
fn synthetic_gguf_round_trip_loads_and_produces_model() {
    let e = synth_engine(Ds4Backend::Cpu, Ok(()));
    assert_eq!(e.n_vocab, 16);
    assert_eq!(e.n_layers, 1);
    assert_eq!(e.tokenizer().vocab_size(), 16);
    assert_eq!(e.tokenizer().tokenize("hi").expect("tokenize"), vec![10]);
    assert!(e.summary().contains("backend=cpu"));
    assert!(e.model_loaded);
}

#[test]
fn render_token_decodes_through_engine_tokenizer() {
    let e = synth_engine(Ds4Backend::Cpu, Ok(()));
    assert_eq!(e.tokenizer().detokenize(&[8]).expect("decode"), "h");
}

#[test]
fn cuda_backend_request_falls_back_to_cpu_name_when_device_unavailable() {
    assert!(wants_cpu_fallback(Ds4Backend::Cuda, &Err(not_here())));
    let e = synth_engine(Ds4Backend::Cuda, Err(not_here()));
    assert!(e.model_loaded, "fallback CPU path should load a model");
    assert!(e.summary().contains("backend=cpu"));
    assert!(!e.summary().contains("backend=cuda"));
}

#[test]
fn a_device_that_fails_otherwise_is_not_replaced() {
    let broken: Ds4Result<()> = Err(Ds4Error::new(Ds4ErrorKind::Backend, "broken".to_string()));
    assert!(!wants_cpu_fallback(Ds4Backend::Cuda, &broken));
    let mut o = options("synth.gguf");
    o.backend = Ds4Backend::Cuda;
    let err = Ds4Engine::open(o, Some(synth_model_file()), broken, Ok(()))
        .err()
        .unwrap();
    assert_eq!(err.message, "broken");
}

fn synth_loaded() -> Vec<LoadedTensor> {
    synth_file()
        .tensors
        .into_iter()
        .map(|descriptor| {
            let n: usize = descriptor.dims.iter().map(|d| *d as usize).product();
            let mut values = vec![0.1f32; n];
            if descriptor.dims.len() == 2 {
                let width = descriptor.dims[1] as usize;
                for i in 0..descriptor.dims[0].min(descriptor.dims[1]) as usize {
                    values[i * width + i] = 0.5;
                }
            }
            LoadedTensor {
                descriptor,
                bytes: Ok(values.iter().flat_map(|v| v.to_le_bytes()).collect()),
                blocks: vec![],
            }
        })
        .collect()
}

#[test]
fn end_to_end_synth_gguf_round_trip() {
    let engine = synth_engine(Ds4Backend::Cpu, Ok(()));
    assert_eq!(engine.vocab_size(), 16, "synth has vocab 16");
    assert_eq!(engine.layer_count(), 1, "synth has 1 layer");
    assert!(engine.summary().contains("backend=cpu"));

    let file = synth_model_file();
    let model =
        CpuBackend::load_model_from_gguf(file.gguf.metadata, Ok(file.dims.unwrap()), synth_loaded())
            .expect("load");
    let names = model.names();
    for name in TENSOR_NAMES {
        assert!(names.iter().any(|n| n == name), "missing {name}");
    }
    assert_eq!(names.len(), TENSOR_NAMES.len());
    match model.get("token_embd.weight").unwrap() {
        TensorData::F32(v) => {
            let v = floats(v);
            assert_eq!(v.len(), 16 * 8, "token_embd is [vocab, hidden] = [16, 8]");
            assert!(v[0] > 0.4 && v[0] < 0.6);
            assert!(v[1] > 0.09 && v[1] < 0.21);
        }
        _ => panic!("token_embd.weight is not F32"),
    }
}

#[test]
fn end_to_end_engine_open_succeeds_on_synth_gguf() {
    let engine = synth_engine(Ds4Backend::Cpu, Ok(()));
    assert!(engine.gguf().is_some(), "engine must hold the GGUF");
    assert_eq!(engine.vocab_size(), 16);
}

#[test]
fn end_to_end_bad_path_errors_cleanly() {
    let engine = without_model(options("definitely-not-a-gguf.bin"));
    assert!(!engine.model_loaded);
    assert!(engine.gguf().is_none());
}

#[test]
fn end_to_end_empty_path_errors_with_invalid_argument() {
    let err = check_options(&Ds4EngineOptions::default()).unwrap_err();
    assert_eq!(err.kind, Ds4ErrorKind::InvalidArgument);
}

// ---- Caches ----

fn down_of(cache: &KvCache, pos: usize, k: &[f32], v: &[f32]) -> Vec<u32> {
    let _ = (cache, pos, k, v);
    bits(&vec![0.0; cache.compressed_dim()])
}

fn extend(c: &mut KvCache, layer: usize, pos: usize, k: &[f32], v: &[f32]) -> Ds4Result<()> {
    let down = down_of(c, pos, k, v);
    c.extend(layer, pos, &bits(k), &bits(v), &down)
}

#[test]
fn cache_allocates_three_tiers() {
    let c = KvCache::new(8, 4).expect("alloc");
    assert_eq!(c.ctx_size(), 8);
    assert_eq!(c.n_layers(), 4);
    assert_eq!(c.head_dim(), DEFAULT_HEAD_DIM);
    assert_eq!(c.raw_layer(0).len(), 8 * DEFAULT_HEAD_DIM);
    assert_eq!(c.compressed_layer(0).len(), 8 * DEFAULT_COMPRESSED_DIM);
    assert_eq!(c.index_comp_layer(0).len(), 8 * DEFAULT_INDEXER_DIM);
}

#[test]
fn extend_writes_kv_into_raw_row() {
    let mut c = KvCache::with_dims(4, 1, 4, 2, 2).expect("alloc");
    let k = [1.0, 2.0, 3.0, 4.0];
    let v = [5.0, 6.0, 7.0, 8.0];
    extend(&mut c, 0, 1, &k, &v).expect("extend");
    assert_eq!(floats(&c.raw_layer(0)[4..8]), [1.0, 2.0, 5.0, 6.0]);
}

#[test]
fn rewind_clears_tail() {
    let mut c = KvCache::with_dims(4, 1, 4, 2, 2).expect("alloc");
    for pos in 0..4 {
        extend(&mut c, 0, pos, &[1.0, 2.0, 3.0, 4.0], &[5.0, 6.0, 7.0, 8.0]).expect("extend");
    }
    c.rewind(0, 2).expect("rewind");
    let raw = floats(c.raw_layer(0));
    assert_eq!(&raw[0..4], &[1.0, 2.0, 5.0, 6.0]);
    assert_eq!(&raw[4..8], &[1.0, 2.0, 5.0, 6.0]);
    assert_eq!(&raw[8..16], &[0.0; 8]);
}

#[test]
fn invalid_args_are_rejected() {
    assert!(KvCache::new(0, 4).is_err());
    assert!(KvCache::new(4, 0).is_err());
    let mut c = KvCache::with_dims(4, 1, 4, 2, 2).expect("alloc");
    assert!(extend(&mut c, 1, 0, &[1.0; 4], &[1.0; 4]).is_err());
    assert!(extend(&mut c, 0, 4, &[1.0; 4], &[1.0; 4]).is_err());
    assert!(extend(&mut c, 0, 0, &[1.0; 3], &[1.0; 4]).is_err());
    assert!(extend(&mut c, 0, 0, &[1.0; 4], &[1.0; 3]).is_err());
    assert!(c.rewind(1, 0).is_err());
    assert!(c.raw_layer(1).is_empty());
    assert!(c.compressed_layer(1).is_empty());
    assert!(c.index_comp_layer(1).is_empty());
}

#[test]
fn default_is_empty() {
    let m = Ds4Mtp::new();
    assert_eq!(m.config().draft_tokens, 0);
    assert_eq!(m.accepted_run(), 0);
    assert!(m.drafts().is_empty());
}

#[test]
fn reset_clears() {
    let mut m = Ds4Mtp::new();
    m.reset();
    assert_eq!(m.accepted_run(), 0);
}

// ---- Sampling ----

/// Samples as a caller does: the arithmetic here, the decisions in the library.
fn sample(
    logits: &[f32],
    temperature: f32,
    top_k: usize,
    top_p: f32,
    min_p: f32,
    rng: &mut StdRng,
) -> u32 {
    let (ids, top_p, min_p) = match sample_start(
        &bits(logits),
        temperature.to_bits(),
        top_k,
        top_p.to_bits(),
        min_p.to_bits(),
    ) {
        SampleStart::Token(t) => return t,
        SampleStart::Choose { ids, top_p, min_p } => (ids, top_p, f32::from_bits(min_p)),
    };
    let best = logits[ids[0]];
    let probs: Vec<f32> = ids
        .iter()
        .map(|i| ((logits[*i] - best) / temperature).exp())
        .collect();
    let sum: f32 = probs.iter().sum();
    let norm: Vec<f32> = probs.iter().map(|p| p / sum).collect();
    let mut run = 0.0f32;
    let cumulative: Vec<f32> = probs
        .iter()
        .map(|p| {
            run += p;
            run / sum
        })
        .collect();
    let cutoff = norm[0] * min_p;
    let n = nucleus_len(&bits(&norm), cutoff.to_bits(), &bits(&cumulative), top_p);
    let total: f32 = probs[..n].iter().sum();
    let mut r = rng.next_u32() as f32 / u32::MAX as f32 * total;
    let left: Vec<f32> = probs[..n]
        .iter()
        .map(|p| {
            r -= p;
            r
        })
        .collect();
    ids[drawn_candidate(&bits(&left))] as u32
}

#[test]
fn argmax_returns_first_max() {
    assert_eq!(argmax(&bits(&[1.0, 5.0, 3.0, 5.0, 2.0])), 1);
    assert_eq!(argmax(&[]), 0);
    assert_eq!(argmax(&bits(&[f32::NAN, f32::NEG_INFINITY, 1.0])), 2);
}

#[test]
fn argmax_excluding_skips_token() {
    assert_eq!(argmax_excluding(&bits(&[1.0, 5.0, 3.0]), 1), 2);
}

#[test]
fn zero_temperature_is_argmax() {
    let mut rng = StdRng::seed_from_u64(0);
    let sampled = sample(&[0.0, 5.0, 1.0], 0.0, 0, 1.0, 0.0, &mut rng);
    assert_eq!(sampled, 1);
}

#[test]
fn top_k_one_picks_argmax() {
    let mut rng = StdRng::seed_from_u64(42);
    let sampled = sample(&[0.1, 0.2, 5.0, 0.3, 0.4], 1.0, 1, 1.0, 0.0, &mut rng);
    assert_eq!(sampled, 2);
}

#[test]
fn sample_is_deterministic_with_seed() {
    let logits = vec![0.1f32; 16];
    let mut rng1 = StdRng::seed_from_u64(7);
    let mut rng2 = StdRng::seed_from_u64(7);
    let s1 = sample(&logits, 1.0, 4, 0.9, 0.05, &mut rng1);
    let s2 = sample(&logits, 1.0, 4, 0.9, 0.05, &mut rng2);
    assert_eq!(s1, s2);
}

#[test]
fn nucleus_keeps_what_reaches_the_cutoff() {
    let probs = [0.5f32, 0.3, 0.15, 0.05];
    let cumulative = [0.5f32, 0.8, 0.95, 1.0];
    let n = |top_p: f32, cutoff: f32| {
        nucleus_len(
            &bits(&probs),
            cutoff.to_bits(),
            &bits(&cumulative),
            top_p.to_bits(),
        )
    };
    assert_eq!(n(0.7, 0.0), 2);
    assert_eq!(n(1.0, 0.2), 2);
    assert_eq!(n(1.0, 0.0), 4);
    assert_eq!(n(0.1, 0.9), 1);
}

#[test]
fn draw_falls_on_the_first_that_uses_it_up() {
    assert_eq!(drawn_candidate(&bits(&[0.4, -0.1, -0.5])), 1);
    assert_eq!(drawn_candidate(&bits(&[0.4, 0.1])), 1);
}

fn log_softmax(logits: &[f32]) -> Vec<f32> {
    let max = f32::from_bits(finite_max(&bits(logits)).unwrap());
    let sum: f32 = logits.iter().map(|v| (v - max).exp()).sum();
    logits.iter().map(|v| v - max - sum.ln()).collect()
}

#[test]
fn token_logprob_matches_top() {
    let work = log_softmax(&[1.0, 2.0, 3.0]);
    let lp = f32::from_bits(logprob_of(&bits(&work), 2));
    let top = top_ids(&bits(&work), 3);
    assert!((lp - work[top[0] as usize]).abs() < 1e-6);
    assert_eq!(logprob_of(&bits(&work), 9), 0);
}

#[test]
fn top_logprobs_returns_k_in_descending_order() {
    let work = log_softmax(&[0.1, 0.5, 0.2, 0.8, 0.3]);
    let top = top_ids(&bits(&work), 3);
    assert_eq!(top.len(), 3);
    assert_eq!(top[0], 3);
    assert_eq!(top[1], 1);
    assert_eq!(top[2], 4);
}

// ---- Sessions ----

fn logits_of(s: &Ds4Session, tokens: &[u32]) -> Ds4Result<Vec<u32>> {
    let n = s.logits().len();
    for t in tokens {
        if *t as usize >= n {
            return Err(Ds4Error::new(
                Ds4ErrorKind::InvalidArgument,
                format!("token id {t} is outside vocabulary size {n}"),
            ));
        }
    }
    Ok(vec![(tokens.len() as f32).to_bits(); n])
}

fn sync(s: &mut Ds4Session, prompt: &[u32]) -> Ds4Result<()> {
    let evaluated = match s.sync_tokens(prompt) {
        Ok(tokens) => logits_of(s, &tokens),
        Err(e) => Err(e),
    };
    s.sync(prompt, evaluated)
}

fn eval(s: &mut Ds4Session, token: u32) -> Ds4Result<()> {
    let evaluated = match s.eval_tokens(token) {
        Ok(tokens) => logits_of(s, &tokens),
        Err(e) => Err(e),
    };
    s.eval(token, evaluated)
}

fn fresh_session(ctx: usize) -> Ds4Session {
    Ds4Session::create(&synth_engine(Ds4Backend::Cpu, Ok(())), ctx).unwrap()
}

#[test]
fn session_create_succeeds() {
    let eng = without_model(options("missing.gguf"));
    let s = Ds4Session::create(&eng, 1024).unwrap();
    assert_eq!(s.pos(), 0);
    assert_eq!(s.ctx(), 1024);
    assert!(!s.is_distributed());
    assert!(Ds4Session::create(&eng, 0).is_err());
}

#[test]
fn sync_then_rewrite_state_path() {
    let mut s = fresh_session(1024);
    sync(&mut s, &[1, 2, 3]).unwrap();
    assert_eq!(s.pos(), 3);
    let new_prompt = vec![1u32, 2, 12, 13];
    let status = s.rewrite_from_common(&new_prompt, 2);
    assert_eq!(status, Ds4RewriteStatus::Done);
    let toks = s.tokens();
    assert!(toks.ends_with(&[12, 13]));
}

#[test]
fn rewrite_with_zero_common_returns_rebuild_needed() {
    let mut s = fresh_session(1024);
    sync(&mut s, &[1]).unwrap();
    let status = s.rewrite_from_common(&[2, 3], 0);
    assert_eq!(status, Ds4RewriteStatus::RebuildNeeded);
}

#[test]
fn rewrite_past_the_context_is_an_error() {
    let mut s = fresh_session(2);
    sync(&mut s, &[1]).unwrap();
    assert_eq!(
        s.rewrite_from_common(&[1, 2, 3], 1),
        Ds4RewriteStatus::RewriteError
    );
    assert_eq!(s.tokens(), vec![1]);
}

#[test]
fn common_prefix_returns_match_length() {
    let mut s = fresh_session(1024);
    sync(&mut s, &[10, 11, 12]).unwrap();
    let n = s.common_prefix(&[10, 11, 13]);
    assert_eq!(n, 2);
}

#[test]
fn invalidate_resets_state() {
    let mut s = fresh_session(1024);
    sync(&mut s, &[1, 2, 3]).unwrap();
    s.invalidate();
    assert_eq!(s.pos(), 0);
    assert!(s.tokens().is_empty());
}

#[test]
fn eval_extends_position() {
    let mut s = fresh_session(1024);
    sync(&mut s, &[]).unwrap();
    eval(&mut s, 10).unwrap();
    assert_eq!(s.pos(), 1);
    assert_eq!(s.tokens(), vec![10]);
}

#[test]
fn rewind_truncates() {
    let mut s = fresh_session(1024);
    sync(&mut s, &[1, 2, 3, 4, 5]).unwrap();
    s.rewind(2);
    assert_eq!(s.pos(), 2);
    assert_eq!(s.tokens(), vec![1, 2]);
}

#[test]
fn rewind_undoes_eval() {
    let mut s = fresh_session(1024);
    sync(&mut s, &[1, 2]).unwrap();
    eval(&mut s, 3).unwrap();
    s.rewind(2);
    assert_eq!(s.tokens(), vec![1, 2]);
}

#[test]
fn sync_is_the_prompt_and_stays_so() {
    let mut s = fresh_session(1024);
    sync(&mut s, &[1, 2]).unwrap();
    eval(&mut s, 3).unwrap();
    sync(&mut s, &[1, 2, 3, 4]).unwrap();
    assert_eq!(s.tokens(), vec![1, 2, 3, 4]);
    sync(&mut s, &[1, 2, 3, 4]).unwrap();
    assert_eq!(s.tokens(), vec![1, 2, 3, 4]);
    sync(&mut s, &[5]).unwrap();
    assert_eq!(s.tokens(), vec![5]);
}

#[test]
fn sync_rejects_prompt_past_context_window() {
    let mut s = fresh_session(2);
    let err = sync(&mut s, &[1, 2, 3]).err().unwrap();
    assert_eq!(err.kind, Ds4ErrorKind::InvalidArgument);
}

#[test]
fn speculative_eval_rejects_context_exhaustion() {
    let mut s = fresh_session(1);
    eval(&mut s, 10).unwrap();
    let mut accepted = vec![0u32; 1];
    let err = s
        .eval_speculative_argmax(2, 1, u32::MAX, &mut accepted)
        .err()
        .unwrap();
    assert_eq!(err.kind, Ds4ErrorKind::OutOfMemory);
}

#[test]
fn eval_error_does_not_commit_token() {
    let mut s = fresh_session(4);
    sync(&mut s, &[10]).unwrap();
    let err = eval(&mut s, 16).err().unwrap();
    assert_eq!(err.kind, Ds4ErrorKind::InvalidArgument);
    assert_eq!(s.pos(), 1);
    assert_eq!(s.tokens(), vec![10]);
}

#[test]
fn logits_are_copied_and_set() {
    let mut s = fresh_session(4);
    s.set_logits(&bits(&[1.0, 3.0, 2.0]));
    assert_eq!(s.argmax(), 1);
    assert_eq!(s.argmax_excluding(1), 2);
    let mut out = vec![0u32; 2];
    s.copy_logits(&mut out, 1);
    assert_eq!(out, vec![1.0f32.to_bits(), 0]);
    assert!(matches!(
        s.sample_start(0, 0, 0, 0),
        SampleStart::Token(1)
    ));
}

#[test]
fn refresh_needs_live_tokens() {
    let mut s = fresh_session(4);
    assert!(s.refresh_tokens().is_none());
    s.refresh_logits(Err(not_here())).unwrap();
    eval(&mut s, 1).unwrap();
    assert_eq!(s.refresh_tokens(), Some(vec![1]));
    assert!(s.refresh_logits(Err(not_here())).is_err());
}

// ---- Rows, rewrites and picks ----

#[test]
fn extend_fills_the_indexer_row_without_compressed_rows() {
    let mut c = KvCache::with_dims(1, 1, 2, 0, 2).expect("alloc");
    extend(&mut c, 0, 0, &[1.0, 2.0], &[3.0, 4.0]).expect("extend");
    assert_eq!(floats(c.raw_layer(0)), [1.0, 3.0]);
    assert!(c.compressed_layer(0).is_empty());
    assert_eq!(floats(c.index_comp_layer(0)), [3.0, 4.0]);
}

#[test]
fn rewrite_asks_for_a_rebuild_where_the_prefix_is_not_live() {
    let mut s = fresh_session(16);
    sync(&mut s, &[1]).unwrap();
    assert_eq!(
        s.rewrite_from_common(&[1, 2, 3], 2),
        Ds4RewriteStatus::RebuildNeeded
    );
    assert_eq!(s.tokens(), vec![1]);
    assert_eq!(s.pos(), 1);
    sync(&mut s, &[1, 2, 3]).unwrap();
    assert_eq!(
        s.rewrite_from_common(&[1, 2], 3),
        Ds4RewriteStatus::RebuildNeeded
    );
    assert_eq!(
        s.rewrite_from_common(&[1, 4], 2),
        Ds4RewriteStatus::RebuildNeeded
    );
    assert_eq!(s.tokens(), vec![1, 2, 3]);
    let prompt = [1, 2, 5, 6];
    let common = s.common_prefix(&prompt);
    assert_eq!(
        s.rewrite_from_common(&prompt, common),
        Ds4RewriteStatus::Done
    );
    assert_eq!(s.tokens(), prompt);
    assert_eq!(s.rewrite_from_common(&[1, 2], 2), Ds4RewriteStatus::Done);
    assert_eq!(s.tokens(), vec![1, 2]);
    assert_eq!(s.pos(), 2);
}

#[test]
fn sync_after_a_speculation_gives_the_prompt() {
    let mut s = fresh_session(16);
    eval(&mut s, 1).unwrap();
    let mut accepted = vec![0u32; 1];
    s.eval_speculative_argmax(2, 1, u32::MAX, &mut accepted)
        .unwrap();
    assert_eq!(accepted, [2]);
    assert_eq!(s.tokens(), vec![1, 2]);
    sync(&mut s, &[1, 3]).unwrap();
    assert_eq!(s.tokens(), vec![1, 3]);
    assert_eq!(s.pos(), 2);
    sync(&mut s, &[1, 3]).unwrap();
    assert_eq!(s.tokens(), vec![1, 3]);
}

#[test]
fn top_ids_are_distinct_and_nothing_left_out_is_higher() {
    let work = bits(&[-2.0, -1.0, -3.0, -1.0, -0.5, -2.0]);
    assert_eq!(top_ids(&work, 4), [4, 1, 3, 0]);
    assert_eq!(top_ids(&work, 9), [4, 1, 3, 0, 5, 2]);
    assert!(top_ids(&work, 0).is_empty());
}

#[test]
fn digits_stand_in_pieces_of_their_own() {
    assert_eq!(
        pre_tokenize("a12345 b6c\u{4f60}7"),
        ["a", "123", "45", " b", "6", "c\u{4f60}", "7"]
    );
}

#[test]
fn replacing_goes_from_the_left() {
    assert_eq!(replace_all("aaa-aa", "aa", "b"), "ba-b");
    assert_eq!(replace_all("blk.{layer}.{layer}", "{layer}", "7"), "blk.7.7");
    assert_eq!(replace_all("\u{e9}\u{e9}x", "\u{e9}", ""), "x");
    assert_eq!(replace_all("", "a", "b"), "");
}

#[test]
fn cutoffs_out_of_range_are_clamped() {
    let cutoffs = |top_p: f32, min_p: f32| {
        match sample_start(
            &bits(&[1.0, 2.0]),
            1.0f32.to_bits(),
            0,
            top_p.to_bits(),
            min_p.to_bits(),
        ) {
            SampleStart::Choose { top_p, min_p, .. } => (f32::from_bits(top_p), f32::from_bits(min_p)),
            SampleStart::Token(_) => panic!("a choice is left"),
        }
    };
    assert_eq!(cutoffs(0.5, 0.25), (0.5, 0.25));
    assert_eq!(cutoffs(1.0, 0.0), (1.0, 0.0));
    assert_eq!(cutoffs(0.0, -1.0), (1.0, 0.0));
    assert_eq!(cutoffs(1.5, 0.0), (1.0, 0.0));
    assert_eq!(cutoffs(f32::NAN, 0.0), (1.0, 0.0));
}
