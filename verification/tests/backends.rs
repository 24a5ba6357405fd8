use ds4::backend_arc::backend::{
    is_routed_expert_tensor, render_expert_pattern, render_layer_pattern, top_experts, ArcBackend,
    ArcModel,
};
use ds4::backend_arc::packed::{
    packed_f32_expert_slice, packed_quant_expert_slice, row_major_index, tensor_data_bytes,
};
use ds4::backend_cpu::attention::{
    attention_heads, check_attention_with_scratch, AttentionHead, AttentionLens,
};
use ds4::backend_cpu::backend::{CpuBackend, CpuModel, LoadedTensor, TensorData};
use ds4::backend_cpu::decode::{
    block_layout, decode_blocks, decode_f16, decode_f32, extend_logical, join_blocks, quant_shape,
};
use ds4::backend_cuda::backend::{blocks_for, launch_grid, CudaBackend, CudaModel};
use ds4::backend_cuda::buffers as cuda_buffers;
use ds4::backend_cuda::kernels as cuda_kernels;
use ds4::backend_cuda::runtime as cuda_runtime;
use ds4::backend_metal::backend::{MetalBackend, MetalModel};
use ds4::backend_metal::buffers as metal_buffers;
use ds4::backend_metal::kernels as metal_kernels;
use ds4::backend_paged::backend::{PagedBackend, PagedModel};
use ds4::backend_paged::page_table::{Page, PageTable, PAGE_TOKENS};
use ds4::backend_paged::paged_attention::{
    page_cache_bytes, paged_attention_inputs, vendored_status, HeadInput,
};
use ds4::backend_rocm::backend::{RocmBackend, RocmModel};
use ds4::backend_rocm::kernels as rocm_kernels;
use ds4::backend_vulkan::backend::VulkanBackend;
use ds4::backend_vulkan::runtime as vulkan_runtime;
use ds4::engine::ModelDims;
use ds4::gguf::{count_up_to, GgufDType, GgufFile, GgufMetadata, TensorDescriptor};
use ds4::graph::{
    layer_calls, layer_tensor_names, slice_tensor_names, ExpertTensorLayout, FfnTensorNames,
    LayerOp, LayerPos, ModelSpec, MoeSpec, TransformerBlockKind,
};
use ds4::toolchain::{KernelCache, ToolRun};
use ds4::types::{
    Ds4EngineOptions, Ds4Error, Ds4ErrorKind, Ds4QuantKind, Ds4Result,
};

fn bits(values: &[f32]) -> Vec<u32> {
    values.iter().map(|v| v.to_bits()).collect()
}

fn floats(values: &[u32]) -> Vec<f32> {
    values.iter().map(|v| f32::from_bits(*v)).collect()
}

fn not_here() -> Ds4Error {
    Ds4Error::new(Ds4ErrorKind::NotImplemented, "not here".to_string())
}

fn descriptor(name: &str, dims: &[u32], dtype: GgufDType) -> TensorDescriptor {
    TensorDescriptor {
        name: name.to_string(),
        dims: dims.to_vec(),
        dtype,
    }
}

#[test]
fn lib_metadata_is_sane() {
    assert_eq!(ds4::backend_cpu::CRATE_NAME, "ds4-backend-cpu");
    assert!(!ds4::backend_cpu::VERSION.is_empty());
    assert_eq!(ds4::backend_cuda::CRATE_NAME, "ds4-backend-cuda");
    assert!(!ds4::backend_cuda::VERSION.is_empty());
    assert_eq!(ds4::backend_metal::CRATE_NAME, "ds4-backend-metal");
    assert!(!ds4::backend_metal::VERSION.is_empty());
    assert_eq!(ds4::backend_paged::CRATE_NAME, "ds4-backend-paged");
    assert!(!ds4::backend_paged::VERSION.is_empty());
    assert_eq!(ds4::backend_rocm::CRATE_NAME, "ds4-backend-rocm");
    assert!(!ds4::backend_rocm::VERSION.is_empty());
    assert_eq!(ds4::backend_vulkan::CRATE_NAME, "ds4-backend-vulkan");
    assert!(!ds4::backend_vulkan::VERSION.is_empty());
    assert_eq!(ds4::CRATE_NAME, "ds4-core");
    assert!(!ds4::VERSION.is_empty());
    assert_eq!(ds4::dist::CRATE_NAME, "ds4-dist");
    assert!(!ds4::dist::VERSION.is_empty());
}

#[test]
fn backend_quant_kind_is_q8_0() {
    assert_eq!(CudaBackend::new().quant_kind(), Ds4QuantKind::Q8_0);
    assert_eq!(PagedBackend::new().quant_kind(), Ds4QuantKind::Q8_0);
}

#[test]
fn backend_quant_kind_is_q4_k() {
    assert_eq!(MetalBackend::new().quant_kind(), Ds4QuantKind::Q4_K);
    assert_eq!(RocmBackend::new().quant_kind(), Ds4QuantKind::Q4_K);
}

#[test]
fn kernels_kernel_sources_are_non_empty() {
    let sources = cuda_kernels::kernel_sources();
    assert_eq!(sources.len(), 7);
    for k in &sources {
        assert!(k.source.contains("__global__"), "kernel {}", k.name);
        assert!(k.source.contains("extern \"C\""), "kernel {}", k.name);
    }
    let sources = metal_kernels::kernel_sources();
    assert_eq!(sources.len(), 5);
    for k in &sources {
        assert!(k.source.contains("kernel"), "kernel {}", k.name);
        assert!(k.source.contains("[[buffer("), "kernel {}", k.name);
    }
    let sources = rocm_kernels::kernel_sources();
    assert_eq!(sources.len(), 4);
    for k in &sources {
        assert!(
            k.source.contains("__global__") || k.source.contains("__device__"),
            "kernel {}",
            k.name
        );
    }
}

#[test]
fn backend_load_model_reports_unavailable_device_runtime() {
    let err = MetalBackend::new().load_model().err().unwrap();
    assert_eq!(err.kind, Ds4ErrorKind::NotImplemented);
    let err = RocmBackend::new().load_model().err().unwrap();
    assert_eq!(err.kind, Ds4ErrorKind::NotImplemented);
    let err = cuda_runtime::open_any(None, "CUDA driver").unwrap_err();
    assert_eq!(err.kind, Ds4ErrorKind::NotImplemented);
    assert_eq!(err.message, "CUDA driver runtime library was not found");
}

#[test]
fn backend_buffer_alloc_works() {
    let mut model = MetalModel::new();
    let b = model.alloc_buffer(metal_buffers::DType::F32, 16);
    assert_eq!(b.len, 16);
    assert_eq!(b.bytes.len(), 64);
    let mut model = RocmModel::new();
    let b = model.alloc_buffer(cuda_buffers::DType::F32, 32);
    assert_eq!(b.len, 32);
    assert_eq!(b.bytes.len(), 128);
}

// ---- Arc ----

#[test]
fn backend_name_is_arc() {
    assert_eq!(ArcBackend::new().name(), "arc");
}

#[test]
fn packed_f32_expert_slice_extracts_selected_expert_axis() {
    let dims = vec![2, 3, 2];
    let mut bytes = Vec::new();
    for row in 0..2 {
        for col in 0..3 {
            for expert in 0..2 {
                let value = (row * 100 + col * 10 + expert) as f32;
                bytes.extend_from_slice(&value.to_le_bytes());
            }
        }
    }
    let slice = packed_f32_expert_slice(&bytes, &dims, 2, 1).unwrap();
    let values: Vec<f32> = slice
        .chunks_exact(4)
        .map(|c| f32::from_le_bytes([c[0], c[1], c[2], c[3]]))
        .collect();
    assert_eq!(values, vec![1.0, 11.0, 21.0, 101.0, 111.0, 121.0]);
}

#[test]
fn packed_q3_expert_slice_uses_matrix_byte_stride() {
    let mut bytes = vec![1u8; 110];
    bytes.extend(std::iter::repeat_n(2u8, 110));
    let slice = packed_quant_expert_slice(&bytes, &[8, 16], GgufDType::Q3_K, 1).unwrap();
    assert_eq!(slice.len(), 110);
    assert!(slice.iter().all(|byte| *byte == 2));
    assert!(packed_quant_expert_slice(&bytes, &[8, 16], GgufDType::Q3_K, 2).is_err());
}

#[test]
fn row_major_index_counts_rows_first() {
    assert_eq!(row_major_index(&[1, 2], &[2, 3]).unwrap(), 5);
    assert!(row_major_index(&[2, 0], &[2, 3]).is_err());
    assert_eq!(tensor_data_bytes(&[8, 32], GgufDType::Q8_0), 8 * 34);
}

#[test]
fn patterns_name_layers_and_experts() {
    assert_eq!(
        render_layer_pattern("blk.{layer}.ffn.weight", 12),
        "blk.12.ffn.weight"
    );
    assert_eq!(
        render_expert_pattern("blk.{layer}.expert.{expert}.weight", 3, 4),
        "blk.3.expert.4.weight"
    );
}

#[test]
fn expert_tensors_are_known_by_name() {
    assert!(!is_routed_expert_tensor("token_embd.weight"));
    assert!(!is_routed_expert_tensor("blk.0.ffn_gate.weight"));
}

#[test]
fn best_experts_come_first() {
    assert_eq!(top_experts(&bits(&[0.1, 0.9, 0.5, 0.9]), 3), vec![1, 3, 2]);
    assert_eq!(top_experts(&bits(&[0.1]), 4), vec![0]);
}

fn spec(kind: TransformerBlockKind, moe: Option<MoeSpec>) -> ModelSpec {
    ModelSpec {
        dims: small_dims(),
        block_kind: kind,
        moe,
        token_embedding: "token_embd.weight".to_string(),
        output_norm: Some("output_norm.weight".to_string()),
        output: "output.weight".to_string(),
        rms_norm_epsilon: 1e-6f32.to_bits(),
        rope_freq_base: 10_000.0f32.to_bits(),
    }
}

fn small_dims() -> ModelDims {
    ModelDims {
        vocab: 16,
        hidden: 8,
        layers: 1,
        n_heads: 1,
        head_dim: 8,
        ffn: 8,
    }
}

fn small_descriptors(dtype: GgufDType) -> Vec<TensorDescriptor> {
    let mut v = vec![
        descriptor("token_embd.weight", &[16, 8], dtype),
        descriptor("output_norm.weight", &[8], dtype),
        descriptor("output.weight", &[8, 16], dtype),
    ];
    for name in ["attn_norm", "ffn_norm"] {
        v.push(descriptor(&format!("blk.0.{name}.weight"), &[8], dtype));
    }
    for name in [
        "attn_q", "attn_k", "attn_v", "attn_out", "ffn_gate", "ffn_up", "ffn_down",
    ] {
        v.push(descriptor(&format!("blk.0.{name}.weight"), &[8, 8], dtype));
    }
    v
}

const FIRST: LayerPos = LayerPos {
    rope_pos: 0,
    cache_pos: 0,
    prefix_len: 1,
};

#[test]
fn arc_model_lays_out_a_dense_layer() {
    let m = ArcModel::new(
        spec(TransformerBlockKind::Dense, None),
        GgufMetadata::default(),
        small_descriptors(GgufDType::F32),
    );
    assert_eq!(m.resident_tensor_count(), 12);
    assert_eq!(m.descriptor_count(), 12);
    let ops = m.forward_layer_at(&layer_tensor_names(0), FIRST).unwrap();
    assert_eq!(ops.len(), 17);
    assert!(matches!(ops[0], LayerOp::RmsNorm { .. }));
    assert!(matches!(ops[16], LayerOp::Add { .. }));
    assert!(m.check_embedding(16).is_err());
    assert!(m.check_embedding(15).is_ok());
    let err = m.tensor("blk.9.attn_q.weight").unwrap_err();
    assert!(err.message.contains("blk.9.attn_q.weight"));
}

#[test]
fn arc_model_reads_one_expert_of_a_packed_tensor() {
    let mut descriptors = small_descriptors(GgufDType::F32);
    descriptors.push(descriptor("blk.0.ffn_gate_exps.weight", &[2, 3, 2], GgufDType::F32));
    let m = ArcModel::new(
        spec(
            TransformerBlockKind::RoutedMoe,
            Some(MoeSpec {
                experts: 2,
                active_experts: 1,
            }),
        ),
        GgufMetadata::default(),
        descriptors,
    );
    let mut bytes = Vec::new();
    for i in 0..12 {
        bytes.extend_from_slice(&(i as f32).to_le_bytes());
    }
    let t = m
        .load_packed_expert_tensor("blk.0.ffn_gate_exps.weight", 1, Ok(bytes))
        .unwrap();
    assert_eq!(t.bytes.len(), 24);
    let layout = ExpertTensorLayout::PerExpert {
        gate_pattern: "blk.{layer}.g.{expert}".to_string(),
        up_pattern: "blk.{layer}.u.{expert}".to_string(),
        down_pattern: "blk.{layer}.d.{expert}".to_string(),
    };
    let names = ArcModel::expert_names(&layout, 2, 1);
    assert_eq!(names.gate, "blk.2.g.1");
    assert_eq!(names.down, "blk.2.d.1");
    assert!(!names.packed);
}

// ---- CPU ----

fn dot(a: &[f32], b: &[f32]) -> f32 {
    a.iter().zip(b).map(|(x, y)| x * y).sum()
}

/// The attention of one head over its rows.
fn attend(q: &[f32], k: &[Vec<f32>], v: &[Vec<f32>]) -> Vec<f32> {
    let scale = 1.0 / (q.len() as f32).sqrt();
    let scores: Vec<f32> = k.iter().map(|row| dot(q, row) * scale).collect();
    let max = scores.iter().copied().fold(f32::NEG_INFINITY, f32::max);
    let weights: Vec<f32> = scores.iter().map(|s| (s - max).exp()).collect();
    let sum: f32 = weights.iter().sum();
    let mut out = vec![0.0; q.len()];
    for (w, row) in weights.iter().zip(v) {
        for (o, x) in out.iter_mut().zip(row) {
            *o += w / sum * x;
        }
    }
    out
}

fn attend_head(h: &AttentionHead) -> Vec<f32> {
    let k: Vec<Vec<f32>> = h.k.iter().map(|r| floats(r)).collect();
    let v: Vec<Vec<f32>> = h.v.iter().map(|r| floats(r)).collect();
    attend(&floats(&h.q), &k, &v)
}

fn attention_decode(
    q: &[f32],
    k: &[f32],
    v: &[f32],
    seq_len: usize,
    n_heads: usize,
    head_dim: usize,
) -> Result<Vec<f32>, &'static str> {
    let heads = attention_heads(
        &bits(q),
        &bits(k),
        &bits(v),
        q.len(),
        seq_len,
        n_heads,
        head_dim,
    )?;
    Ok(heads.iter().flat_map(|h| attend_head(h)).collect())
}

fn approx_eq(a: f32, b: f32, tol: f32) -> bool {
    (a - b).abs() <= tol
}

#[test]
fn attention_hand_computed_single_head_seq2() {
    let cache = [1.0f32, 0.0, 0.0, 1.0];
    let out = attention_decode(&[1.0, 1.0], &cache, &cache, 2, 1, 2).unwrap();
    assert!(approx_eq(out[0], 0.5, 1e-6));
    assert!(approx_eq(out[1], 0.5, 1e-6));
}

#[test]
fn attention_singleton_seq_picks_first_token() {
    let cache = [1.0f32, 0.0];
    let out = attention_decode(&[1.0, 0.0], &cache, &cache, 1, 1, 2).unwrap();
    assert!(approx_eq(out[0], 1.0, 1e-6));
    assert!(approx_eq(out[1], 0.0, 1e-6));
}

#[test]
fn attention_multi_head_orthogonal_inputs() {
    let cache = [1.0f32, 0.0, 1.0, 0.0, 0.0, 1.0, 0.0, 1.0];
    let out = attention_decode(&[1.0; 4], &cache, &cache, 2, 2, 2).unwrap();
    for v in out {
        assert!(approx_eq(v, 0.5, 1e-6));
    }
}

#[test]
fn attention_rejects_dimension_mismatch() {
    let cache = [1.0f32, 0.0];
    let r = attention_decode(&[1.0, 1.0], &cache, &cache, 1, 2, 2);
    assert!(r.is_err());
}

#[test]
fn attention_needs_room_for_scores() {
    let lens = AttentionLens {
        q: 2,
        k_cache: 4,
        v_cache: 4,
        out: 2,
    };
    assert!(check_attention_with_scratch(lens, 2, 1, 2, 8).is_ok());
    assert!(check_attention_with_scratch(lens, 2, 1, 2, 0).is_err());
}

#[test]
fn cpu_model_insert_and_get() {
    let mut m = CpuModel::new();
    m.insert("a".to_string(), TensorData::F32(bits(&[1.0, 2.0])));
    assert!(m.get("a").is_some());
    assert!(m.get("b").is_none());
    assert_eq!(m.len(), 1);
}

#[test]
fn tensor_data_f32_accessor_works() {
    let t = TensorData::F32(bits(&[3.0, 4.0]));
    assert_eq!(t.as_f32_bits(), Some(&bits(&[3.0f32, 4.0])[..]));
    assert_eq!(t.as_bytes(), &[] as &[u8]);
}

#[test]
fn tensor_data_raw_bytes_accessor() {
    let t = TensorData::Q8_0(vec![1, 2, 3]);
    assert_eq!(t.as_bytes(), &[1u8, 2, 3][..]);
    assert_eq!(t.as_f32_bits(), None);
}

#[test]
fn descriptor_lookup_returns_inserted() {
    let mut m = CpuModel::new();
    m.descriptors
        .push(descriptor("foo", &[2, 2], GgufDType::F32));
    assert!(m.descriptor("foo").is_some());
    assert!(m.descriptor("bar").is_none());
}

#[test]
fn backend_name_is_cpu() {
    assert_eq!(CpuBackend::new().name(), "cpu");
}

#[test]
fn memory_estimate_is_positive() {
    let n = CpuBackend::memory_estimate(8192, 512);
    assert!(n > 0);
}

#[test]
fn cpu_model_quant_kind_is_f32() {
    let m = CpuModel::new();
    assert_eq!(m.quant_kind(), Ds4QuantKind::F32);
}

fn single(values: &[f32]) -> Vec<u8> {
    values.iter().flat_map(|v| v.to_le_bytes()).collect()
}

fn loaded(descriptor: TensorDescriptor, bytes: Vec<u8>) -> LoadedTensor {
    LoadedTensor {
        descriptor,
        bytes: Ok(bytes),
        blocks: vec![],
    }
}

fn load(items: Vec<LoadedTensor>) -> Ds4Result<CpuModel> {
    CpuBackend::load_model_from_gguf(GgufMetadata::default(), Ok(small_dims()), items)
}

#[test]
fn loading_goes_by_the_format() {
    let mut q8 = loaded(descriptor("q", &[40], GgufDType::Q8_0), vec![0; 68]);
    q8.blocks = vec![bits(&[1.0; 32]), bits(&[2.0; 32])];
    let model = load(vec![
        loaded(descriptor("f", &[2], GgufDType::F32), single(&[1.5, -2.0, 9.0])),
        loaded(descriptor("h", &[2], GgufDType::F16), vec![0x00, 0x3e, 0x00, 0xc0]),
        loaded(descriptor("u", &[3], GgufDType::Other), vec![7, 8]),
        q8,
    ])
    .unwrap();
    match model.get("f").unwrap() {
        TensorData::F32(v) => assert_eq!(floats(v), vec![1.5, -2.0]),
        other => panic!("{other:?}"),
    }
    match model.get("h").unwrap() {
        TensorData::F32(v) => assert_eq!(floats(v), vec![1.5, -2.0]),
        other => panic!("{other:?}"),
    }
    match model.get("u").unwrap() {
        TensorData::Unknown(v) => assert_eq!(v, &vec![7, 8]),
        other => panic!("{other:?}"),
    }
    match model.get("q").unwrap() {
        TensorData::F32(v) => {
            let v = floats(v);
            assert_eq!(v.len(), 40);
            assert_eq!((v[31], v[32], v[39]), (1.0, 2.0, 2.0));
        }
        other => panic!("{other:?}"),
    }
    assert_eq!(model.n_elements(), 2 + 2 + 40);
}

#[test]
fn loading_reports_the_first_tensor_that_fails() {
    let big = [u32::MAX; 3];
    let short = || loaded(descriptor("s", &[2], GgufDType::F32), vec![0; 7]);
    let mut unread = short();
    unread.bytes = Err(Ds4Error::new(Ds4ErrorKind::Io, "short file".to_string()));
    let mut both = loaded(descriptor("big \"one\"", &big, GgufDType::Q4_K), vec![]);
    both.bytes = Err(not_here());
    let e = load(vec![both, short()]).unwrap_err();
    assert_eq!(e.kind, Ds4ErrorKind::Model);
    assert_eq!(
        e.message,
        "tensor \"big \\\"one\\\"\": element count overflows usize"
    );
    let other = || loaded(descriptor("o", &big, GgufDType::Other), vec![]);
    assert_eq!(
        load(vec![other()]).unwrap_err().message,
        "tensor \"o\": element count overflows usize"
    );
    let e = load(vec![unread, other()]).unwrap_err();
    assert_eq!((e.kind, e.message.as_str()), (Ds4ErrorKind::Io, "short file"));
    let e = load(vec![short(), other()]).unwrap_err();
    assert_eq!((e.kind, e.message.as_str()), (Ds4ErrorKind::Model, "F32 tensor bytes 7 < needed 8"));
    let none = load(vec![loaded(
        descriptor("z", &[u32::MAX, u32::MAX, u32::MAX, 0], GgufDType::F32),
        vec![],
    )])
    .unwrap();
    assert_eq!(none.n_elements(), 0);
}

#[test]
fn blocks_are_joined_up_to_the_last_element() {
    let blocks = [vec![1, 2], vec![3, 4], vec![5, 6]];
    assert_eq!(join_blocks(&blocks, 5), vec![1, 2, 3, 4, 5]);
    assert_eq!(join_blocks(&blocks, 2), vec![1, 2]);
    assert_eq!(join_blocks(&blocks, 9), vec![1, 2, 3, 4, 5, 6]);
    assert_eq!(count_up_to(&[3, 4], 12), Some(12));
    assert_eq!(count_up_to(&[3, 4], 11), None);
    assert_eq!(count_up_to(&[], 1), Some(1));
    assert_eq!(count_up_to(&[9, 0], 1), Some(0));
}

fn cpu_model() -> CpuModel {
    let items = small_descriptors(GgufDType::F32)
        .into_iter()
        .map(|descriptor| {
            let n: usize = descriptor.dims.iter().map(|d| *d as usize).product();
            loaded(descriptor, single(&vec![0.25; n]))
        })
        .collect();
    CpuBackend::load_model_from_gguf(GgufMetadata::default(), Ok(small_dims()), items).unwrap()
}

#[test]
fn cpu_model_rejects_token_outside_vocab() {
    let model = cpu_model();
    let names = slice_tensor_names(0, 1);
    let err = model
        .compute_sequence_logits(&names, &[16], 16)
        .err()
        .unwrap();
    assert_eq!(err.kind, Ds4ErrorKind::InvalidArgument);
    assert_eq!(err.message, "token id 16 is outside vocabulary size 16");
    assert_eq!(
        model
            .compute_sequence_logits(&names, &[1, 2], 16)
            .unwrap()
            .len(),
        2
    );
    assert!(model.compute_sequence_logits(&names, &[], 16).is_err());
    assert!(model.compute_sequence_logits(&names, &[1], 15).is_err());
}

#[test]
fn cpu_model_lays_out_slices_and_heads() {
    let model = cpu_model();
    let names = slice_tensor_names(0, 1);
    let calls = model
        .compute_layer_slice(&names, 2, 5, 0, 1, 16, 16)
        .unwrap();
    assert_eq!(calls.len(), 2);
    assert_eq!(calls[1].at.rope_pos, 6);
    assert_eq!(calls[1].at.prefix_len, 2);
    let err = |r: Ds4Result<Vec<ds4::graph::LayerCall>>| r.err().unwrap().message;
    assert_eq!(
        err(model.compute_layer_slice(&names, 2, 0, 1, 0, 16, 16)),
        "invalid layer slice 1..0"
    );
    assert_eq!(
        err(model.compute_layer_slice(&names, 2, 0, 0, 2, 16, 16)),
        "layer slice 0..2 exceeds model layer count 1"
    );
    assert_eq!(
        err(model.compute_layer_slice(&names, 2, 0, 0, 1, 15, 16)),
        "input_hc length 15 is not a multiple of hidden 8"
    );
    assert_eq!(
        err(model.compute_layer_slice(&names, 2, 0, 0, 1, 16, 15)),
        "output_hc too small: 15 < 16"
    );
    assert_eq!(
        err(model.compute_layer_slice(&names, 1, 0, 0, 1, 16, 16)),
        "token slice too short: 1 < 2"
    );
    let plan = model.compute_output_head_from_hc(16, 2, 32).unwrap();
    assert!(plan.norm);
    assert_eq!(plan.calls[1].hidden_start, 8);
    assert_eq!(plan.calls[1].logits_end, 32);
    assert!(model.compute_output_head_from_hc(15, 2, 32).is_err());
    assert!(model.compute_output_head_from_hc(16, 2, 31).is_err());
    assert_eq!(model.n_elements(), 16 * 8 * 2 + 8 * 3 + 64 * 7);
}

#[test]
fn cpu_model_reports_the_first_missing_tensor() {
    let mut model = cpu_model();
    model
        .descriptors
        .retain(|d| d.name != "blk.0.attn_q.weight");
    let err = model
        .forward_layer_at(&layer_tensor_names(0), small_dims(), FIRST, 8, 8)
        .err()
        .unwrap();
    assert_eq!(err.message, "missing tensor blk.0.attn_q.weight");
}

#[test]
fn decode_f16_tensor_to_f32_values() {
    let bytes = [0x00u8, 0x3e, 0x00, 0xc0];
    let d = descriptor("half.weight", &[2], GgufDType::F16);
    let decoded = decode_f16(&d, &bytes).unwrap();
    assert_eq!(floats(&decoded), vec![1.5, -2.0]);
    assert!(decode_f16(&d, &bytes[..3]).is_err());
}

#[test]
fn decode_f32_reads_elements() {
    let mut bytes = Vec::new();
    for v in [1.5f32, -2.0] {
        bytes.extend_from_slice(&v.to_le_bytes());
    }
    let d = descriptor("f.weight", &[2], GgufDType::F32);
    assert_eq!(floats(&decode_f32(&d, &bytes).unwrap()), vec![1.5, -2.0]);
    assert!(decode_f32(&d, &bytes[..4]).is_err());
}

fn half(bits: u16) -> f32 {
    let sign = if bits & 0x8000 != 0 { -1.0 } else { 1.0 };
    let exp = ((bits >> 10) & 0x1f) as i32;
    let mant = (bits & 0x3ff) as f32 / 1024.0;
    if exp == 0 {
        sign * mant * 2.0f32.powi(-14)
    } else {
        sign * (1.0 + mant) * 2.0f32.powi(exp - 15)
    }
}

#[test]
fn decode_q8_0_tensor_to_f32_values() {
    let mut bytes = vec![0x00u8, 0x38];
    let mut qs = [0u8; 32];
    qs[0] = 2u8;
    qs[1] = (-4i8) as u8;
    bytes.extend_from_slice(&qs);
    let d = descriptor("q8.weight", &[2], GgufDType::Q8_0);
    let t = decode_blocks(&d, &bytes, GgufDType::Q8_0).unwrap();
    let mut out = Vec::new();
    for b in &t.blocks {
        let scratch: Vec<f32> = b.qs.iter().map(|q| half(b.d) * (*q as i8) as f32).collect();
        extend_logical(&mut out, &bits(&scratch), t.n);
    }
    assert_eq!(floats(&out), vec![1.0, -2.0]);
}

#[test]
fn decode_q3_k_tensor_to_f32_values() {
    let mut bytes = Vec::new();
    bytes.extend_from_slice(&[7u8; 32]);
    bytes.extend_from_slice(&[8u8; 64]);
    bytes.extend_from_slice(&[9u8; 12]);
    bytes.extend_from_slice(&[0x00, 0x38]);
    let d = descriptor("q3.weight", &[256], GgufDType::Q3_K);
    let t = decode_blocks(&d, &bytes, GgufDType::Q3_K).unwrap();
    assert_eq!(t.n, 256);
    assert_eq!(t.blocks.len(), 1);
    assert_eq!(t.blocks[0].hmask, vec![7; 32]);
    assert_eq!(t.blocks[0].qs, vec![8; 64]);
    assert_eq!(t.blocks[0].scales, vec![9; 12]);
    assert_eq!(half(t.blocks[0].d), 0.5);
}

#[test]
fn blocks_of_every_format_are_cut_at_their_size() {
    for (format, size) in [
        (GgufDType::Q8_0, 34),
        (GgufDType::Q4_K, 144),
        (GgufDType::Q3_K, 110),
        (GgufDType::Q2_K, 84),
        (GgufDType::Iq2Xxs, 66),
    ] {
        assert_eq!(block_layout(format).unwrap().bytes, size);
        let elements = format.block_size() as u32;
        let d = descriptor("x", &[elements], format);
        assert_eq!(
            quant_shape(&d, size, format).unwrap(),
            (elements as usize, 1)
        );
        assert!(quant_shape(&d, size - 1, format).is_err());
        assert!(quant_shape(&d, size, GgufDType::F32).is_err());
    }
    assert!(block_layout(GgufDType::F32).is_none());
}

#[test]
fn slices_run_token_by_token() {
    let calls = layer_calls(10, 2, 4, 2);
    let order: Vec<(usize, usize, usize)> = calls
        .iter()
        .map(|c| (c.token_idx, c.layer, c.local_layer))
        .collect();
    assert_eq!(order, vec![(0, 2, 0), (0, 3, 1), (1, 2, 0), (1, 3, 1)]);
}

// ---- CUDA ----

#[test]
fn backend_name_is_cuda() {
    assert_eq!(CudaBackend::new().name(), "cuda");
}

#[test]
fn detect_arch_reads_the_capability() {
    assert_eq!(
        CudaBackend::detect_arch("8.6").as_deref(),
        Some("sm_86")
    );
    assert_eq!(
        CudaBackend::detect_arch(" 9.0 \r\n8.6\n").as_deref(),
        Some("sm_90")
    );
    assert_eq!(CudaBackend::detect_arch("n/a"), None);
    assert_eq!(CudaBackend::detect_arch(""), None);
    assert_eq!(CudaBackend::detect_arch("\n8.6"), None);
}

#[test]
fn compile_all_returns_not_implemented_without_nvcc() {
    let mut model = CudaModel::new();
    let k = model.next_kernel().unwrap();
    assert_eq!(k.name, "matmul_q8_0");
    let compiled = cuda_kernels::compile(k.name, None, ToolRun::Absent).map(|c| c.cubin);
    let res = model.cache.get_or_compile(k.name, compiled);
    assert!(res.is_err(), "expected error when nvcc absent");
    assert_eq!(res.unwrap_err().kind, Ds4ErrorKind::NotImplemented);
}

#[test]
fn compile_all_returns_not_implemented_on_non_macos() {
    let mut model = MetalModel::new();
    let k = model.next_kernel().unwrap();
    let compiled = metal_kernels::compile(k.name, None, ToolRun::Absent).map(|c| c.metallib);
    let res = model.cache.get_or_compile(k.name, compiled);
    assert!(res.is_err());
    assert_eq!(res.unwrap_err().kind, Ds4ErrorKind::NotImplemented);
}

#[test]
fn compile_all_returns_not_implemented_without_hipcc() {
    let mut model = RocmModel::new();
    let k = model.next_kernel().unwrap();
    let compiled = rocm_kernels::compile(k.name, None, ToolRun::Absent).map(|c| c.hsaco);
    let res = model.cache.get_or_compile(k.name, compiled);
    assert!(res.is_err());
    assert_eq!(res.unwrap_err().kind, Ds4ErrorKind::NotImplemented);
}

#[test]
fn kernel_cache_rejects_duplicates() {
    let mut cache = KernelCache::new();
    assert!(cache.get_or_compile("k", Err(not_here())).is_err());
    assert!(!cache.has("k"));
    let r = cache.get_or_compile("k", Err(not_here()));
    assert!(r.is_err());
    cache.get_or_compile("k", Ok(vec![1])).unwrap();
    assert!(cache.has("k"));
    assert!(cache.get_or_compile("k", Err(not_here())).is_ok());
}

#[test]
fn every_kernel_is_asked_for_once() {
    let mut model = CudaModel::new();
    let mut names = Vec::new();
    while let Some(k) = model.next_kernel() {
        names.push(k.name);
        model.cache.get_or_compile(k.name, Ok(vec![0])).unwrap();
    }
    assert_eq!(
        names,
        vec![
            "matmul_q8_0",
            "attention_decode_mixed",
            "head_rms_norm_rope_tail",
            "fp8_kv_quantize",
            "router_select",
            "compressor_store",
            "sampling_argmax",
        ]
    );
}

#[test]
fn buffer_alloc_returns_typed_buffer() {
    let mut model = CudaModel::new();
    let b = model.alloc_buffer(cuda_buffers::DType::F32, 32);
    assert_eq!(b.dtype, cuda_buffers::DType::F32);
    assert_eq!(b.len, 32);
    assert_eq!(b.bytes.len(), 128);
}

#[test]
fn pool_allocates_and_reuses() {
    let mut pool = cuda_buffers::BufferPool::new();
    let b1 = pool.alloc_buffer(cuda_buffers::DType::F32, 16);
    assert_eq!(b1.len, 16);
    let b2 = pool.alloc_buffer(cuda_buffers::DType::F32, 32);
    assert_eq!(b2.len, 32);
    pool.release(b1);
    let b3 = pool.alloc_buffer(cuda_buffers::DType::F32, 8);
    assert_eq!(b3.len, 8);
    assert_eq!(b3.capacity, 16, "should reuse the released buffer");
    pool.release(b2);
    pool.release(b3);
}

#[test]
fn pool_distinguishes_dtypes() {
    let mut pool = cuda_buffers::BufferPool::new();
    let a = pool.alloc_buffer(cuda_buffers::DType::F32, 4);
    let b = pool.alloc_buffer(cuda_buffers::DType::F16, 4);
    assert_ne!(
        cuda_buffers::dtype_elem(a.dtype),
        cuda_buffers::dtype_elem(b.dtype)
    );
}

#[test]
fn buffer_new_zeros_capacity() {
    let b = cuda_buffers::Buffer::new(cuda_buffers::DType::F32, 100);
    assert_eq!(b.bytes.len(), 400);
    assert!(b.bytes.iter().all(|&x| x == 0));
}

#[test]
fn f32_roundtrip_safe() {
    let data = [1.0f32, 2.0, 3.0, 4.0];
    let b = cuda_buffers::Buffer::from_f32_bits(&bits(&data), 4);
    let out = floats(&b.to_f32_bits());
    assert_eq!(out, data);
}

#[test]
fn dtype_elem_matches_block_sizes() {
    assert_eq!(cuda_buffers::dtype_elem(cuda_buffers::DType::Q8_0), 36);
    assert_eq!(cuda_buffers::dtype_elem(cuda_buffers::DType::Q4_K), 144);
    assert_eq!(cuda_buffers::dtype_elem(cuda_buffers::DType::Q3_K), 110);
    assert_eq!(cuda_buffers::dtype_elem(cuda_buffers::DType::Q2_K), 84);
    assert_eq!(cuda_buffers::dtype_elem(cuda_buffers::DType::Iq2Xxs), 66);
}

#[test]
fn kernel_sources_reference_upstream_paths() {
    assert!(cuda_kernels::KERNEL_MATMUL_Q8_0_SRC.contains("ggml-cuda.cu:3627"));
    assert!(cuda_kernels::KERNEL_ATTENTION_DECODE_MIXED_SRC.contains("ggml-cuda.cu:4630"));
    assert!(cuda_kernels::KERNEL_HEAD_RMS_NORM_ROPE_TAIL_SRC.contains("ggml-cuda.cu:4032"));
    assert!(cuda_kernels::KERNEL_FP8_KV_QUANTIZE_SRC.contains("ggml-cuda.cu:4251"));
    assert!(cuda_kernels::KERNEL_ROUTER_SELECT_SRC.contains("ggml-cuda.cu:5963"));
    assert!(cuda_kernels::KERNEL_COMPRESSOR_STORE_SRC.contains("ggml-cuda.cu:5784"));
}

#[test]
fn compile_returns_not_implemented_without_nvcc() {
    let e = cuda_kernels::compile("test", None, ToolRun::Absent).unwrap_err();
    assert_eq!(e.kind, Ds4ErrorKind::NotImplemented);
    let e = cuda_kernels::compile("test", None, ToolRun::Failed(b"line \xff".to_vec()))
        .unwrap_err();
    assert_eq!(e.kind, Ds4ErrorKind::Other);
    assert_eq!(e.message, "nvcc failed: line \u{fffd}");
    let k = cuda_kernels::compile("test", None, ToolRun::Done(vec![1, 2])).unwrap();
    assert_eq!(k.cubin, vec![1, 2]);
    assert_eq!(cuda_kernels::compile_args("sm_80", "a.cu", "a.cubin").len(), 7);
}

fn cuda_model(dtype: GgufDType) -> CudaModel {
    let mut m = CudaModel::new();
    m.descriptors = small_descriptors(dtype);
    m.stated_dims = Some(small_dims());
    m
}

#[test]
fn cuda_model_needs_a_device() {
    let mut m = cuda_model(GgufDType::Q8_0);
    let names = slice_tensor_names(0, 1);
    let err = m
        .compute_layer_slice(&names, 1, 0, 0, 1, 8, 8)
        .err()
        .unwrap();
    assert_eq!(err.kind, Ds4ErrorKind::NotImplemented);
    assert_eq!(
        err.message,
        "CUDA model was not loaded with a device runtime"
    );
    assert!(m.compute_layer_slice(&Vec::new(), 1, 0, 1, 1, 8, 8).unwrap().is_empty());
    assert!(m.eval_output_head_from_hc(0, 0).unwrap().calls.is_empty());
    m.has_runtime = true;
    assert_eq!(
        m.compute_layer_slice(&names, 1, 0, 0, 1, 8, 8)
            .unwrap()
            .len(),
        1
    );
    assert_eq!(
        m.compute_layer_slice(&names, 1, 0, 0, 2, 8, 8)
            .err()
            .unwrap()
            .message,
        "invalid layer slice 0..2"
    );
    assert!(m.eval_output_head_from_hc(1, 16).unwrap().norm);
    assert_eq!(
        m.eval_output_head_from_hc(1, 15).err().unwrap().message,
        "logit buffer too small: 15 < 16"
    );
    assert_eq!(
        m.compute_sequence_logits(&names, &[1, 2], 16)
            .unwrap()
            .len(),
        2
    );
    assert_eq!(
        m.compute_sequence_logits(&names, &[1, 99], 16)
            .err()
            .unwrap()
            .message,
        "token id 99 is outside vocabulary size 16"
    );
}

#[test]
fn cuda_model_refuses_unknown_formats_and_experts() {
    let mut m = cuda_model(GgufDType::Other);
    m.has_runtime = true;
    let err = m
        .forward_layer_at(&layer_tensor_names(0), small_dims(), FIRST)
        .err()
        .unwrap();
    assert_eq!(err.kind, Ds4ErrorKind::NotImplemented);
    assert!(err.message.starts_with("tensor blk.0.attn_norm.weight dtype "));
    let m = cuda_model(GgufDType::F32);
    assert_eq!(m.tensor_dtype_code("output.weight").unwrap(), 0);
    let mut names = layer_tensor_names(0);
    names.ffn = FfnTensorNames::RoutedMoe {
        router: "r".to_string(),
        expert_layout: ExpertTensorLayout::Packed {
            gate: "g".to_string(),
            up: "u".to_string(),
            down: "d".to_string(),
        },
        shared_gate: None,
        shared_up: None,
        shared_down: None,
    };
    let err = m
        .forward_layer_at(&names, small_dims(), FIRST)
        .err()
        .unwrap();
    assert_eq!(
        err.message,
        "CUDA routed-MoE FFN execution requires expert dispatch kernels"
    );
}

#[test]
fn cuda_dimensions_come_from_the_tensors() {
    let mut m = cuda_model(GgufDType::F32);
    m.stated_dims = None;
    m.metadata.layer_count = Some(1);
    m.metadata.head_count = Some(2);
    let dims = m.dims().unwrap();
    assert_eq!((dims.vocab, dims.hidden), (16, 8));
    assert_eq!((dims.n_heads, dims.head_dim), (2, 4));
    m.metadata.head_count = Some(3);
    assert!(m.dims().is_err());
    m.descriptors.clear();
    assert_eq!(
        m.dims().err().unwrap().message,
        "missing tensor token_embd.weight"
    );
}

#[test]
fn launches_cover_all_items() {
    assert_eq!(blocks_for(0), 1);
    assert_eq!(blocks_for(256), 1);
    assert_eq!(blocks_for(257), 2);
    let g = launch_grid(LayerOp::StoreK { start: 0, n: 300 });
    assert_eq!((g.blocks, g.threads), (2, 256));
    assert_eq!(CudaModel::alloc_f32(0), 4);
    assert_eq!(CudaModel::alloc_f32(3), 12);
}

#[test]
fn generated_runtime_source_contains_iq2_tables() {
    let source = cuda_runtime::runtime_kernel_source(&[0, 129], &[0x0808, 1]);
    assert!(source.contains("DS4_KSIGNS[128]"));
    assert!(source.contains("DS4_IQ2_GRID[256]"));
    assert!(source.contains("ds4_matvec"));
    assert!(source.contains("ds4_load_q3_k"));
    assert!(source.starts_with("__constant__ unsigned char DS4_KSIGNS[128] = {0,129};\n"));
    assert!(source.contains("{0x0000000000000808ULL,0x0000000000000001ULL};\n"));
}

fn search(windows: bool) -> cuda_runtime::NvrtcSearch {
    cuda_runtime::NvrtcSearch {
        ds4_dll: None,
        nvrtc_dll: None,
        cuda_bin: vec![],
        windows,
        installed_bins: vec![],
    }
}

#[test]
fn nvrtc_candidate_list_is_non_empty() {
    assert!(!cuda_runtime::nvrtc_candidates(&search(false)).is_empty());
    assert!(!cuda_runtime::nvrtc_candidates(&search(true)).is_empty());
}

#[test]
fn nvrtc_candidates_are_in_order_and_single() {
    let mut s = search(false);
    s.ds4_dll = Some("/opt/LIBNVRTC.SO".to_string());
    s.nvrtc_dll = Some("/opt/libnvrtc.so".to_string());
    s.cuda_bin = vec![
        cuda_runtime::BinEntry {
            path: "/c/nvrtc64_120_0.dll".to_string(),
            name: Some("nvrtc64_120_0.dll".to_string()),
        },
        cuda_runtime::BinEntry {
            path: "/c/other.dll".to_string(),
            name: Some("other.dll".to_string()),
        },
        cuda_runtime::BinEntry {
            path: "/c/odd".to_string(),
            name: None,
        },
    ];
    assert_eq!(
        cuda_runtime::nvrtc_candidates(&s),
        vec![
            "/opt/LIBNVRTC.SO",
            "/c/nvrtc64_120_0.dll",
            "libnvrtc.so",
            "libnvrtc.so.12",
            "/usr/local/cuda/lib64/libnvrtc.so",
        ]
    );
    assert_eq!(
        cuda_runtime::driver_candidates(false),
        vec!["libcuda.so.1", "libcuda.so"]
    );
    assert_eq!(cuda_runtime::driver_candidates(true), vec!["nvcuda.dll"]);
}

#[test]
fn cuda_answers_are_read() {
    assert!(cuda_runtime::check(0, "cuInit", None).is_ok());
    assert_eq!(
        cuda_runtime::check(2, "cuInit", None).unwrap_err().message,
        "cuInit: CUDA error 2"
    );
    assert_eq!(
        cuda_runtime::check(2, "cuInit", Some("out of memory"))
            .unwrap_err()
            .message,
        "cuInit: out of memory"
    );
    assert_eq!(cuda_runtime::error_message(7, None), "NVRTC error 7");
    assert_eq!(
        cuda_runtime::check_symbol("libcuda.so", "cuInit", false)
            .unwrap_err()
            .message,
        "libcuda.so missing symbol cuInit"
    );
    let mem = cuda_runtime::DeviceMem { ptr: 8, bytes: 4 };
    assert_eq!((mem.ptr(), mem.bytes()), (8, 4));
    assert!(mem.copy_from(4).is_ok());
    assert_eq!(
        mem.copy_from(5).unwrap_err().message,
        "host copy 5 exceeds device allocation 4"
    );
    assert_eq!(
        mem.copy_to(5).unwrap_err().message,
        "host destination 5 exceeds device allocation 4"
    );
    let log = cuda_runtime::LogReply {
        size_code: 0,
        size: 7,
        fetch_code: 0,
        bytes: b"\0bad\xff\0\0".to_vec(),
    };
    assert_eq!(cuda_runtime::nvrtc_log(&log), "bad\u{fffd}");
}

#[test]
fn cuda_runtime_comes_up_step_by_step() {
    let mut step = cuda_runtime::LoadStep::Driver;
    let mut kernels = Vec::new();
    let mut steps = 0;
    while step != cuda_runtime::LoadStep::Ready {
        if let cuda_runtime::LoadStep::Function(i) = step {
            kernels.push(cuda_runtime::kernel_name(i));
        }
        step = step.after(Ok(())).unwrap();
        steps += 1;
    }
    assert_eq!(steps, 15);
    assert_eq!(kernels.len(), 8);
    assert_eq!(kernels[0], "ds4_embedding");
    assert_eq!(kernels[7], "ds4_attention_decode");
    assert!(cuda_runtime::LoadStep::Init.after(Err(not_here())).is_err());
}

fn reply(code: i32) -> cuda_runtime::NvrtcReply {
    cuda_runtime::NvrtcReply {
        code,
        message: "broken".to_string(),
    }
}

#[test]
fn ptx_programs_are_destroyed_once_created() {
    let finish = |a: cuda_runtime::PtxAction| match a {
        cuda_runtime::PtxAction::Finish { destroy, result } => {
            (destroy, result.map_err(|e| e.message))
        }
        _ => panic!("not the end"),
    };
    assert!(matches!(
        cuda_runtime::compile_ptx(cuda_runtime::PtxEvent::Created(reply(0))),
        cuda_runtime::PtxAction::Compile
    ));
    assert_eq!(
        finish(cuda_runtime::compile_ptx(cuda_runtime::PtxEvent::Created(
            reply(1)
        ))),
        (false, Err("nvrtcCreateProgram: broken".to_string()))
    );
    assert_eq!(
        finish(cuda_runtime::compile_ptx(cuda_runtime::PtxEvent::Compiled(
            reply(6),
            "log".to_string()
        ))),
        (true, Err("nvrtcCompileProgram: broken; log".to_string()))
    );
    assert!(matches!(
        cuda_runtime::compile_ptx(cuda_runtime::PtxEvent::Sized(reply(0), 9)),
        cuda_runtime::PtxAction::Fetch(9)
    ));
    assert_eq!(
        finish(cuda_runtime::compile_ptx(cuda_runtime::PtxEvent::Sized(
            reply(1),
            0
        ))),
        (true, Err("nvrtcGetPTXSize: broken".to_string()))
    );
    assert_eq!(
        finish(cuda_runtime::compile_ptx(cuda_runtime::PtxEvent::Fetched(
            reply(0),
            vec![1]
        ))),
        (true, Ok(vec![1]))
    );
    assert_eq!(
        finish(cuda_runtime::compile_ptx(cuda_runtime::PtxEvent::Fetched(
            reply(1),
            vec![]
        ))),
        (true, Err("nvrtcGetPTX: broken".to_string()))
    );
    assert_eq!(
        cuda_runtime::compile_options(),
        vec!["--gpu-architecture=compute_80", "--use_fast_math"]
    );
    assert_eq!(
        cuda_runtime::source_error("here").message,
        "CUDA source contains interior nul: here"
    );
}

// ---- Metal and ROCm ----

#[test]
fn backend_name_is_metal() {
    assert_eq!(MetalBackend::new().name(), "metal");
}

#[test]
fn pool_basic() {
    let mut pool = metal_buffers::BufferPool::new();
    let b = pool.alloc_buffer(metal_buffers::DType::F32, 16);
    assert_eq!(b.len, 16);
    pool.release(b);
}

#[test]
fn dtype_elem_matches() {
    assert_eq!(metal_buffers::dtype_elem(metal_buffers::DType::F32), 4);
    assert_eq!(metal_buffers::dtype_elem(metal_buffers::DType::F16), 2);
}

#[test]
fn compile_returns_not_implemented_on_non_macos() {
    let r = metal_kernels::compile("test", None, ToolRun::Absent);
    assert!(r.is_err());
    assert_eq!(r.unwrap_err().kind, Ds4ErrorKind::NotImplemented);
}

#[test]
fn backend_name_is_rocm() {
    assert_eq!(RocmBackend::new().name(), "rocm");
}

#[test]
fn default_arch_is_gfx1151() {
    assert_eq!(RocmBackend::default_arch(), "gfx1151");
}

#[test]
fn compile_returns_not_implemented_without_hipcc() {
    let r = rocm_kernels::compile("test", None, ToolRun::Absent);
    assert!(r.is_err());
    assert_eq!(r.unwrap_err().kind, Ds4ErrorKind::NotImplemented);
    let r = rocm_kernels::compile("test", Some("disk full".to_string()), ToolRun::Absent);
    assert!(r.unwrap_err().message.ends_with("(disk full)"));
}

// ---- Paged ----

#[test]
fn backend_name_is_paged() {
    let b = PagedBackend::new();
    assert_eq!(b.name(), "paged");
}

#[test]
fn load_model_returns_paged_model_with_page_tables() {
    let b = PagedBackend::new();
    let m = b.load_model(&Ds4EngineOptions::default()).unwrap();
    assert_eq!(m.n_layers(), 32);
    assert_eq!(m.page_tables.len(), 32);
    for (i, pt) in m.page_tables.iter().enumerate() {
        assert_eq!(pt.layer(), i);
    }
}

#[test]
fn trait_load_model_uses_gguf_metadata() {
    let mut metadata = GgufMetadata::default();
    metadata.layer_count = Some(3);
    let file = GgufFile {
        metadata,
        kv: vec![],
        tensors: small_descriptors(GgufDType::F32),
    };
    let model = PagedBackend::new().load_model_from_gguf(&file).unwrap();
    assert_eq!(model.n_layers(), 3);
    assert_eq!(model.quant_kind(), Ds4QuantKind::Q8_0);
}

#[test]
fn memory_estimate_zero_ctx_returns_zero() {
    assert_eq!(PagedBackend::memory_estimate(0, 512), 0);
}

#[test]
fn memory_estimate_grows_with_ctx() {
    let small = PagedBackend::memory_estimate(512, 512);
    let big = PagedBackend::memory_estimate(4096, 512);
    assert!(big > small, "memory estimate should grow with context size");
}

#[test]
fn memory_estimate_includes_paging_overhead() {
    let naive = 512 * 2 * 32 * 128 * 4 * 32;
    let estimate = PagedBackend::memory_estimate(512, 512);
    assert!(
        estimate >= naive as u64,
        "estimate {} should cover the naive lower bound {}",
        estimate,
        naive,
    );
}

fn attend_rows(h: &HeadInput) -> Vec<f32> {
    let mut k = Vec::new();
    let mut v = Vec::new();
    for row in h.rows.iter().flatten() {
        k.push(floats(&row.k));
        v.push(floats(&row.v));
    }
    attend(&floats(&h.q), &k, &v)
}

fn paged_attention_decode(
    q: &[f32],
    cache: &PageTable,
    layer: usize,
    seq_len: usize,
    n_heads: usize,
    head_dim: usize,
) -> Vec<f32> {
    paged_attention_inputs(&bits(q), cache, layer, seq_len, n_heads, head_dim)
        .iter()
        .flat_map(|h| attend_rows(h))
        .collect()
}

fn append(t: &mut PageTable, k: &[f32], v: &[f32]) {
    t.append_token(&bits(k), &bits(v));
}

#[test]
fn paged_model_attention_routes_to_correct_layer() {
    let m = PagedModel::with_layers(4, 4);
    let q = [1.0, 0.0, 1.0, 0.0];
    let inputs = m.attention_inputs(&bits(&q), 2, 0, 2, 2);
    let out: Vec<f32> = inputs.iter().flat_map(|h| attend_rows(h)).collect();
    assert_eq!(out, vec![0.0; 4]);
}

#[test]
fn paged_model_clone_is_independent() {
    let mut m = PagedModel::with_layers(2, 4);
    append(&mut m.page_tables[0], &[1.0; 4], &[1.0; 4]);
    let mut m2 = m.clone();
    append(&mut m2.page_tables[0], &[2.0; 4], &[2.0; 4]);
    assert_eq!(m.page_tables[0].seq_len, 1);
    assert_eq!(m2.page_tables[0].seq_len, 2);
}

#[test]
fn page_tokens_constant_is_16() {
    assert_eq!(PAGE_TOKENS, 16);
}

#[test]
fn vendored_status_reflects_feature_flag() {
    let _ = vendored_status();
    assert_eq!(
        PagedBackend::new().uses_vendored_kernel,
        vendored_status()
    );
}

#[test]
fn alloc_returns_distinct_indices_until_free() {
    let mut t = PageTable::new(0, 4);
    let a = t.alloc_page();
    let b = t.alloc_page();
    assert_ne!(a, b);
    assert_eq!(t.n_materialized(), 2);
    assert_eq!(t.n_slots(), 2);
}

#[test]
fn free_then_alloc_does_not_recycle_index_in_v1() {
    let mut t = PageTable::new(0, 4);
    let a = t.alloc_page();
    let b = t.alloc_page();
    t.free(a);
    let c = t.alloc_page();
    assert_ne!(c, a, "v1 alloc does not recycle freed indices");
    assert_eq!(c, b + 1, "next sequential slot");
    assert!(c != b);
    assert_eq!(t.n_materialized(), 2);
    assert_eq!(t.n_slots(), 3);
}

#[test]
fn free_of_unknown_index_is_a_noop() {
    let mut t = PageTable::new(0, 4);
    t.alloc_page();
    t.free(999);
    assert_eq!(t.n_materialized(), 1);
}

#[test]
fn lookup_returns_none_past_seq_len() {
    let mut t = PageTable::new(0, 4);
    assert!(
        t.lookup(0).is_none(),
        "no tokens appended yet -> seq_len = 0"
    );
    append(&mut t, &[0.0; 4], &[0.0; 4]);
    assert_eq!(t.lookup(0), Some((0, 0)));
    assert!(t.lookup(1).is_none(), "only one token stored");
}

#[test]
fn append_token_spans_pages() {
    let mut t = PageTable::new(0, 4);
    for i in 0..(PAGE_TOKENS + 3) {
        let k = [i as f32, 0.0, 0.0, 0.0];
        let v = [0.0, i as f32, 0.0, 0.0];
        append(&mut t, &k, &v);
    }
    assert_eq!(t.seq_len, PAGE_TOKENS + 3);
    assert_eq!(t.lookup(0), Some((0, 0)));
    assert_eq!(t.lookup(PAGE_TOKENS - 1), Some((0, PAGE_TOKENS - 1)));
    assert_eq!(t.lookup(PAGE_TOKENS), Some((1, 0)));
    assert_eq!(t.lookup(PAGE_TOKENS + 2), Some((1, 2)));
    assert!(t.lookup(PAGE_TOKENS + 3).is_none());
    let (page_idx, offset) = t.lookup(2).unwrap();
    let page = t.pages[page_idx].as_ref().unwrap();
    assert_eq!(page.k[offset * page.head_elements], 2.0f32.to_bits());
}

#[test]
fn share_prefix_does_not_reallocate_kv() {
    let mut a = PageTable::new(0, 4);
    for i in 0..PAGE_TOKENS {
        append(&mut a, &[i as f32, 0.0, 0.0, 0.0], &[0.0; 4]);
    }
    assert_eq!(a.seq_len, PAGE_TOKENS);
    assert_eq!(a.n_materialized(), 1);

    let mut b = PageTable::new(0, 4);
    let shared_idx = {
        let p0 = a.pages[0].as_ref().unwrap().clone();
        b.share_prefix_from(p0)
    };
    assert_eq!(shared_idx, 0);
    assert_eq!(b.seq_len, PAGE_TOKENS);
    assert_eq!(b.n_materialized(), 1);

    append(&mut b, &[99.0; 4], &[99.0; 4]);
    assert_eq!(b.seq_len, PAGE_TOKENS + 1);
    assert_eq!(b.n_materialized(), 2);
    assert_eq!(a.seq_len, PAGE_TOKENS);
    assert_eq!(a.n_materialized(), 1);
    let shared = b.pages[shared_idx].as_ref().unwrap();
    assert_eq!(shared.n_tokens, PAGE_TOKENS);
    assert_eq!(shared.k[0], 0);
    let fresh = b.pages[1].as_ref().unwrap();
    assert_eq!(fresh.n_tokens, 1);
    assert_eq!(fresh.k[0], 99.0f32.to_bits());
}

#[test]
fn page_ensure_capacity_is_idempotent() {
    let mut p = Page::empty(0);
    p.ensure_capacity(8);
    let first = p.k.len();
    p.ensure_capacity(8);
    assert_eq!(
        p.k.len(),
        first,
        "ensure_capacity must not reallocate on repeat calls"
    );
}

#[test]
fn freed_page_yields_none_on_lookup() {
    let mut t = PageTable::new(0, 4);
    append(&mut t, &[1.0; 4], &[1.0; 4]);
    assert_eq!(t.seq_len, 1);
    let idx = 0;
    t.free(idx);
    let r = t.lookup(0);
    assert!(r.is_none(), "freed slot must not return data: got {:?}", r);
    t.free(idx);
    assert!(t.lookup(0).is_none());
}

fn build_two_page_cache() -> PageTable {
    let mut cache = PageTable::new(0, 4);
    for k in [
        [1.0, 0.0, 1.0, 0.0],
        [0.0, 1.0, 0.0, 1.0],
        [-1.0, 0.0, -1.0, 0.0],
        [0.0, -1.0, 0.0, -1.0],
    ] {
        append(&mut cache, &k, &k);
    }
    for _ in 4..PAGE_TOKENS + 1 {
        append(&mut cache, &[0.0; 4], &[0.0; 4]);
    }
    assert_eq!(cache.seq_len, PAGE_TOKENS + 1);
    assert_eq!(
        cache.n_materialized(),
        2,
        "must have crossed a page boundary"
    );
    cache
}

#[test]
fn empty_seq_returns_zero_output() {
    let cache = PageTable::new(0, 4);
    let q = [1.0, 0.0, 0.0, 1.0];
    let out = paged_attention_decode(&q, &cache, 0, 0, 2, 2);
    assert_eq!(out, vec![0.0; 4]);
}

#[test]
fn single_token_uniform_softmax() {
    let mut cache = PageTable::new(0, 4);
    append(&mut cache, &[1.0, 0.0, 1.0, 0.0], &[2.0, 0.0, 2.0, 0.0]);
    let q = [1.0, 0.0, 1.0, 0.0];
    let out = paged_attention_decode(&q, &cache, 0, 1, 2, 2);
    assert_eq!(out, vec![2.0, 0.0, 2.0, 0.0]);
}

#[test]
fn heads_read_their_own_part_of_a_row() {
    let mut cache = PageTable::new(0, 4);
    append(&mut cache, &[1.0, 2.0, 3.0, 4.0], &[5.0, 6.0, 7.0, 8.0]);
    let out = paged_attention_decode(&[1.0; 4], &cache, 0, 1, 2, 2);
    assert_eq!(out, vec![5.0, 6.0, 7.0, 8.0]);
}

#[test]
fn two_pages_orthogonal_queries_pick_max_overlap() {
    let cache = build_two_page_cache();
    let q = [2.0, 0.0, 2.0, 0.0];
    let out = paged_attention_decode(&q, &cache, 0, 4, 2, 2);
    let s = 1.0_f32 / (2.0_f32).sqrt();
    let e0 = (2.0 * s).exp();
    let e1 = 1.0_f32;
    let e2 = (-2.0 * s).exp();
    let denom = e0 + e1 + e2 + e1;
    let h0d0 = e0 / denom - e2 / denom;
    for (got, want) in out.iter().zip([h0d0, 0.0, h0d0, 0.0]) {
        assert!((got - want).abs() < 1e-5, "got {got}, expected {want}");
    }
}

#[test]
fn two_pages_perfect_orthogonality_full_softmax() {
    let cache = build_two_page_cache();
    let q = [1.0, 1.0, 1.0, 1.0];
    let out = paged_attention_decode(&q, &cache, 0, 4, 2, 2);
    let s = 1.0_f32 / (2.0_f32).sqrt();
    let e = (s).exp();
    let em1 = (-s).exp();
    let denom = 2.0 * e + 2.0 * em1;
    let want = e / denom - em1 / denom;
    for got in out {
        assert!((got - want).abs() < 1e-5, "got {got}, expected {want}");
    }
}

#[test]
fn page_cache_bytes_matches_formula() {
    let bytes = page_cache_bytes(512, 32, 128);
    let expected = (512 / 16 + 1) * 16 * 32 * 128 * 4 * 2;
    assert_eq!(bytes, expected);
}

#[test]
fn span_pages_with_attention_computes_correctly() {
    let mut cache = PageTable::new(0, 4);
    for _ in 0..(PAGE_TOKENS + 1) {
        append(&mut cache, &[0.0; 4], &[0.0; 4]);
    }
    let q = [1.0, 0.0, 1.0, 0.0];
    let out = paged_attention_decode(&q, &cache, 0, PAGE_TOKENS + 1, 2, 2);
    for v in &out {
        assert!(v.abs() < 1e-6, "expected zeros, got {}", v);
    }
}

#[test]
fn vendored_status_reflects_feature() {
    let _ = vendored_status();
    assert!(!vendored_status());
}

// ---- Vulkan ----

#[test]
fn backend_name_is_vulkan() {
    assert_eq!(VulkanBackend::new().name(), "vulkan");
}

fn report(name: &str, device_type: u32, families: &[(u32, u32)]) -> vulkan_runtime::DeviceReport {
    vulkan_runtime::DeviceReport {
        present: true,
        device_name: name.to_string(),
        vendor_id: 1,
        device_id: 2,
        device_type,
        api_version: 3,
        driver_version: 4,
        families: families
            .iter()
            .map(|(flags, count)| vulkan_runtime::QueueFamily {
                flags: *flags,
                count: *count,
            })
            .collect(),
        memory: memory(),
    }
}

fn memory() -> vulkan_runtime::MemoryProperties {
    let mut type_flags = vec![0u32; 32];
    type_flags[0] = 1;
    type_flags[1] = 2;
    type_flags[2] = 6;
    vulkan_runtime::MemoryProperties {
        type_count: 3,
        type_flags,
        heap_count: 1,
        heaps: vec![
            vulkan_runtime::VulkanMemoryHeap {
                size_bytes: 9,
                flags: 1,
            };
            16
        ],
    }
}

fn vulkan() -> vulkan_runtime::VulkanRuntime {
    let d = report("Arc", 2, &[(2, 1)]);
    vulkan_runtime::VulkanRuntime {
        queue_family_index: 0,
        memory: memory(),
        device_info: vulkan_runtime::device_info(&d, 0),
    }
}

#[test]
fn vulkan_backend_loads_runtime_then_fails_closed_for_synthetic_model() {
    let b = VulkanBackend::new();
    let err = b.load_model(Ok(1), Err("no device"));
    assert_eq!(err.kind, Ds4ErrorKind::Backend);
    assert_eq!(err.message, "Vulkan backend unavailable: no device");
    let runtime = vulkan();
    let err = b.load_model(Ok(61), Ok(&runtime));
    assert_eq!(err.kind, Ds4ErrorKind::Backend);
    assert!(err.message.contains("SPIR-V kernels"));
    assert!(err.message.contains("61 layers"));
    let err = b.load_model(Err(not_here()), Ok(&runtime));
    assert_eq!(err.message, "not here");
    assert_eq!(b.probe(Ok(runtime)).unwrap().device_name, "Arc");
}

#[test]
fn vulkan_runtime_loads_or_reports_absent_vulkan() {
    let select = |devices: Vec<vulkan_runtime::DeviceReport>| {
        vulkan_runtime::select_physical_device(0, devices.len() as u32, 0, &devices)
    };
    assert_eq!(
        vulkan_runtime::select_physical_device(-3, 1, 0, &vec![])
            .err()
            .unwrap()
            .message,
        "vkEnumeratePhysicalDevices failed with Vulkan result -3"
    );
    assert_eq!(
        select(vec![]).err().unwrap().message,
        "Vulkan reports no physical devices"
    );
    assert_eq!(
        select(vec![report("gfx", 2, &[(1, 1), (2, 0)])])
            .err()
            .unwrap()
            .message,
        "Vulkan reports no compute-capable physical devices"
    );
    let mut gone = report("Arc gone", 2, &[(2, 1)]);
    gone.present = false;
    let s = select(vec![
        report("iGPU", 1, &[(2, 1)]),
        report("first", 2, &[(1, 1), (3, 2)]),
        gone,
        report("second", 2, &[(2, 1)]),
    ])
    .unwrap();
    assert_eq!((s.index, s.queue_family), (1, 1));
    assert_eq!(s.info.device_type, "discrete-gpu");
    assert_eq!(s.info.memory_heaps.len(), 1);
    let s = select(vec![
        report("first", 2, &[(2, 1)]),
        report("Intel ARC", 1, &[(2, 1)]),
    ])
    .unwrap();
    assert_eq!(s.index, 1);
    assert_eq!(vulkan_runtime::device_type_name(9), "other");
    assert_eq!(
        vulkan_runtime::unsupported_system().kind,
        Ds4ErrorKind::NotImplemented
    );
}

fn fail(a: vulkan_runtime::BufferAction) -> (bool, bool, String) {
    match a {
        vulkan_runtime::BufferAction::Fail {
            free_memory,
            destroy_buffer,
            error,
        } => (free_memory, destroy_buffer, error.message),
        _ => panic!("did not fail"),
    }
}

#[test]
fn host_visible_buffer_roundtrip_or_reports_absent_vulkan() {
    let r = vulkan();
    let request = vulkan_runtime::VulkanRuntime::alloc_host_visible(16);
    assert!(matches!(
        r.alloc_buffer(request, vulkan_runtime::BufferEvent::Created { code: 0 }),
        vulkan_runtime::BufferAction::AskNeeds
    ));
    assert!(matches!(
        r.alloc_buffer(
            request,
            vulkan_runtime::BufferEvent::Needs {
                size: 64,
                type_bits: 7
            }
        ),
        vulkan_runtime::BufferAction::Allocate {
            size: 64,
            type_index: 2
        }
    ));
    let buffer = match r.alloc_buffer(request, vulkan_runtime::BufferEvent::Bound { code: 0 }) {
        vulkan_runtime::BufferAction::Finish(b) => b,
        _ => panic!("no buffer"),
    };
    assert_eq!(
        buffer.memory_kind(),
        vulkan_runtime::VulkanMemoryKind::HostVisible
    );
    assert!(buffer.write(16).is_ok());
    assert!(buffer.read(10).is_ok());
    assert_eq!(
        buffer.write(17).unwrap_err().message,
        "Vulkan buffer write too large: 17 > 16"
    );
    assert!(vulkan_runtime::VulkanBuffer::map(0, true).is_err());
}

#[test]
fn device_local_buffer_allocates_or_reports_absent_vulkan() {
    let r = vulkan();
    let request = vulkan_runtime::VulkanRuntime::alloc_device_local(4096);
    let buffer = match r.alloc_buffer(request, vulkan_runtime::BufferEvent::Bound { code: 0 }) {
        vulkan_runtime::BufferAction::Finish(b) => b,
        _ => panic!("no buffer"),
    };
    assert_eq!(
        buffer.memory_kind(),
        vulkan_runtime::VulkanMemoryKind::DeviceLocal
    );
    assert!(buffer.bytes() >= 4096);
    assert_eq!(
        buffer.read(1).unwrap_err().message,
        "Vulkan buffer is device-local and cannot be mapped by the host"
    );
}

#[test]
fn vulkan_gives_back_what_it_created() {
    let r = vulkan();
    let request = vulkan_runtime::VulkanRuntime::alloc_host_visible(0);
    assert_eq!(request.size, 1);
    assert_eq!(
        fail(r.alloc_buffer(request, vulkan_runtime::BufferEvent::Created { code: -1 })),
        (
            false,
            false,
            "vkCreateBuffer failed with Vulkan result -1".to_string()
        )
    );
    assert_eq!(
        fail(r.alloc_buffer(
            request,
            vulkan_runtime::BufferEvent::Needs {
                size: 1,
                type_bits: 3
            }
        )),
        (
            false,
            true,
            "Vulkan memory type not found for flags 0x00000006 and mask 0x00000003".to_string()
        )
    );
    assert_eq!(
        fail(r.alloc_buffer(request, vulkan_runtime::BufferEvent::Allocated { code: -2 })),
        (
            false,
            true,
            "vkAllocateMemory failed with Vulkan result -2".to_string()
        )
    );
    assert_eq!(
        fail(r.alloc_buffer(request, vulkan_runtime::BufferEvent::Bound { code: -2 })),
        (
            true,
            true,
            "vkBindBufferMemory failed with Vulkan result -2".to_string()
        )
    );
    let up = |event: vulkan_runtime::BringUpEvent| match vulkan_runtime::bring_up(event) {
        vulkan_runtime::BringUpAction::Fail {
            destroy_device,
            destroy_instance,
            error,
        } => Some((destroy_device, destroy_instance, error.message)),
        _ => None,
    };
    assert_eq!(
        up(vulkan_runtime::BringUpEvent::Instance {
            code: 0,
            is_null: false
        }),
        None
    );
    assert_eq!(
        up(vulkan_runtime::BringUpEvent::Instance {
            code: 0,
            is_null: true
        }),
        Some((
            false,
            false,
            "vkCreateInstance returned a null instance".to_string()
        ))
    );
    assert_eq!(
        up(vulkan_runtime::BringUpEvent::Selected(Err(not_here()))),
        Some((false, true, "not here".to_string()))
    );
    assert_eq!(
        up(vulkan_runtime::BringUpEvent::Queue { is_null: true }),
        Some((
            true,
            true,
            "vkGetDeviceQueue returned a null compute queue".to_string()
        ))
    );
}

#[test]
fn driver_replies_become_results() {
    let done = cuda_runtime::DriverReply { code: 0, text: None };
    let full = cuda_runtime::DriverReply {
        code: 2,
        text: Some("out of memory".to_string()),
    };
    let mem = cuda_runtime::CudaRuntime::alloc_device(64, 4096, &done).unwrap();
    assert_eq!((mem.ptr(), mem.bytes()), (4096, 64));
    let shared = cuda_runtime::CudaRuntime::alloc_managed(16, 8192, &done).unwrap();
    assert_eq!((shared.ptr(), shared.bytes()), (8192, 16));
    assert_eq!(
        cuda_runtime::CudaRuntime::alloc_device(64, 0, &full)
            .unwrap_err()
            .message,
        "cuMemAlloc: out of memory"
    );
    assert_eq!(
        cuda_runtime::CudaRuntime::alloc_managed(64, 0, &full)
            .unwrap_err()
            .message,
        "cuMemAllocManaged: out of memory"
    );
    let lost = cuda_runtime::DriverReply { code: 201, text: None };
    assert_eq!(
        cuda_runtime::CudaRuntime::ensure_current(&lost)
            .unwrap_err()
            .message,
        "cuCtxSetCurrent: CUDA error 201"
    );
    assert_eq!(
        cuda_runtime::CudaRuntime::copy_htod(&lost).unwrap_err().message,
        "cuMemcpyHtoD: CUDA error 201"
    );
    assert_eq!(
        cuda_runtime::CudaRuntime::copy_dtoh(&lost).unwrap_err().message,
        "cuMemcpyDtoH: CUDA error 201"
    );
    assert_eq!(
        cuda_runtime::CudaRuntime::synchronize(&lost).unwrap_err().message,
        "cuCtxSynchronize: CUDA error 201"
    );
    assert_eq!(
        cuda_runtime::CudaRuntime::launch(&lost).unwrap_err().message,
        "cuLaunchKernel: CUDA error 201"
    );
    assert!(cuda_runtime::CudaRuntime::synchronize(&done).is_ok());
    assert!(cuda_runtime::CudaRuntime::frees(8));
    assert!(!cuda_runtime::CudaRuntime::frees(0));
}

#[test]
fn a_page_takes_a_new_width_at_its_next_write() {
    let mut t = PageTable::new(0, 4);
    append(&mut t, &[1.0; 4], &[5.0; 4]);
    append(&mut t, &[2.0; 4], &[6.0; 4]);
    t.set_head_elements(8);
    assert_eq!(t.append_token(&bits(&[3.0; 8]), &bits(&[7.0; 8])), (0, 2));
    assert_eq!(t.seq_len, 3);
    let page = t.pages[0].as_ref().unwrap();
    assert_eq!(page.head_elements, 8);
    assert_eq!(page.k.len(), PAGE_TOKENS * 8);
    let wide = |x: f32| [x, x, x, x, 0.0, 0.0, 0.0, 0.0];
    assert_eq!(floats(&page.k[..8]), wide(1.0));
    assert_eq!(floats(&page.k[8..16]), wide(2.0));
    assert_eq!(floats(&page.k[16..24]), [3.0; 8]);
    assert_eq!(floats(&page.v[8..16]), wide(6.0));
    t.set_head_elements(2);
    assert_eq!(t.append_token(&bits(&[4.0; 2]), &bits(&[8.0; 2])), (0, 3));
    let page = t.pages[0].as_ref().unwrap();
    assert_eq!(
        floats(&page.k[..8]),
        [1.0, 1.0, 2.0, 2.0, 3.0, 3.0, 4.0, 4.0]
    );
}

#[test]
fn attention_reads_past_a_narrow_page_without_tokens() {
    let mut t = PageTable::new(0, 2);
    append(&mut t, &[1.0, 2.0], &[3.0, 4.0]);
    t.set_head_elements(1);
    t.alloc_page();
    let inputs = paged_attention_inputs(&bits(&[1.0, 1.0]), &t, 0, 1, 1, 2);
    let row = inputs[0].rows[0].as_ref().unwrap();
    assert_eq!(floats(&row.k), [1.0, 2.0]);
    assert_eq!(floats(&row.v), [3.0, 4.0]);
}

#[test]
fn cpu_model_lays_out_a_sequence() {
    let calls = cpu_model().sequence_calls(3);
    let seen: Vec<(usize, usize, usize)> = calls
        .iter()
        .map(|c| (c.token_idx, c.layer, c.at.prefix_len))
        .collect();
    assert_eq!(seen, [(0, 0, 1), (1, 0, 2), (2, 0, 3)]);
}

#[test]
fn no_buffer_is_a_multiple_of_nothing() {
    let mut model = cpu_model();
    model.stated_dims = Some(ModelDims {
        hidden: 0,
        ..small_dims()
    });
    let names = slice_tensor_names(0, 1);
    assert_eq!(
        model
            .compute_layer_slice(&names, 1, 0, 0, 1, 8, 8)
            .err()
            .unwrap()
            .message,
        "input_hc length 8 is not a multiple of hidden 0"
    );
}

#[test]
fn a_range_of_layers_runs_as_its_parts_in_turn() {
    let run = |rows: &[u64], start: usize, end: usize| -> Vec<u64> {
        let mut rows = rows.to_vec();
        let mut caches = vec![0u64; end - start];
        for call in layer_calls(5, start, end, rows.len()) {
            let x = rows[call.token_idx];
            let cache = caches[call.local_layer];
            rows[call.token_idx] = x * 3 + cache * 7 + call.layer as u64 + call.at.rope_pos as u64;
            caches[call.local_layer] = cache + x;
        }
        rows
    };
    let rows = [1, 2, 3, 4];
    assert_eq!(run(&rows, 1, 4), run(&run(&rows, 1, 3), 3, 4));
    assert_eq!(run(&rows, 1, 4), run(&run(&rows, 1, 2), 2, 4));
    assert_eq!(run(&rows, 2, 2), rows);
}
