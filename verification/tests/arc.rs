use ds4::backend_arc::backend::ArcModel;
use ds4::backend_arc::kernels::ARC_KERNEL_SRC;
use ds4::backend_arc::moe::{ExpertData, MoePart};
use ds4::backend_arc::runtime::{
    build_error, build_log, bytes_to_string, check, check_create, check_library, check_symbol,
    find_arc_device, kernel_at, launch_1d, load_step, unsupported_system, ArcDevice, ArcMem,
    ArcPlatform, ArcRuntime, InfoReply, KernelId, LoadAction, LoadEvent, PlatformList,
    KERNEL_COUNT,
};
use ds4::backend_arc::sequence::{
    launch_add_scaled, row_span, ArcArg, SequencePlan, SequenceStep,
};
use ds4::engine::ModelDims;
use ds4::gguf::{GgufDType, GgufMetadata, TensorDescriptor};
use ds4::graph::{
    layer_tensor_names, ExpertTensorLayout, LayerBuf, LayerOp, LayerWeight, ModelSpec, MoeSpec,
    TransformerBlockKind,
};
use ds4::types::{Ds4Error, Ds4ErrorKind};

// ---- The runtime ----

fn text(s: &str) -> InfoReply {
    let mut bytes = s.as_bytes().to_vec();
    bytes.push(0);
    InfoReply {
        size_code: 0,
        fetch_code: 0,
        bytes,
    }
}

fn refused(size_code: i32, fetch_code: i32) -> InfoReply {
    InfoReply {
        size_code,
        fetch_code,
        bytes: vec![],
    }
}

fn device(name: &str, vendor: &str) -> ArcDevice {
    ArcDevice {
        name: text(name),
        vendor: text(vendor),
    }
}

fn platform(name: &str, vendor: &str, devices: Vec<ArcDevice>) -> ArcPlatform {
    ArcPlatform {
        name: text(name),
        vendor: text(vendor),
        count_code: 0,
        device_count: devices.len() as u32,
        list_code: 0,
        devices,
    }
}

fn list(platforms: Vec<ArcPlatform>) -> PlatformList {
    PlatformList {
        count_code: 0,
        count: platforms.len() as u32,
        list_code: 0,
        platforms,
    }
}

#[test]
fn arc_runtime_loads_or_reports_absent_arc() {
    let err = find_arc_device(&list(vec![])).unwrap_err();
    assert_eq!(err.kind, Ds4ErrorKind::NotImplemented);
    assert_eq!(err.message, "OpenCL reports no platforms");
    let err = find_arc_device(&list(vec![platform(
        "Intel OpenCL",
        "Intel",
        vec![device("UHD Graphics", "Intel")],
    )]))
    .unwrap_err();
    assert_eq!(err.kind, Ds4ErrorKind::NotImplemented);
    assert_eq!(err.message, "Intel Arc OpenCL GPU was not found");
    let choice = find_arc_device(&list(vec![
        platform("NVIDIA CUDA", "NVIDIA", vec![device("Arc look-alike", "Intel")]),
        platform(
            "Intel OpenCL",
            "Intel(R) Corporation",
            vec![
                device("UHD Graphics", "Intel(R) Corporation"),
                device("Intel(R) Arc(TM) A770", "Intel(R) Corporation"),
            ],
        ),
    ]))
    .unwrap();
    assert_eq!((choice.platform, choice.device), (1, 1));
    let runtime = ArcRuntime::new(choice);
    assert!(runtime.device_name().contains("Arc"));
    assert!(runtime.platform_name().contains("OpenCL"));
    let err = unsupported_system();
    assert_eq!(err.kind, Ds4ErrorKind::NotImplemented);
    assert_eq!(
        err.message,
        "Intel Arc OpenCL backend currently loads on Windows"
    );
}

#[test]
fn arc_search_reports_the_first_question_that_failed() {
    let mut l = list(vec![]);
    l.count_code = -1001;
    assert_eq!(
        find_arc_device(&l).unwrap_err().message,
        "clGetPlatformIDs failed with OpenCL error -1001"
    );
    let mut p = platform("Intel OpenCL", "Intel", vec![device("Arc", "Intel")]);
    p.vendor = refused(0, -30);
    assert_eq!(
        find_arc_device(&list(vec![p])).unwrap_err().message,
        "clGetPlatformInfo failed with OpenCL error -30"
    );
    let mut p = platform("Intel OpenCL", "Intel", vec![device("Arc", "Intel")]);
    p.list_code = -5;
    assert_eq!(
        find_arc_device(&list(vec![p])).unwrap_err().message,
        "clGetDeviceIDs failed with OpenCL error -5"
    );
    let mut broken = device("Arc", "Intel");
    broken.name = refused(-6, 0);
    let p = platform("Intel OpenCL", "Intel", vec![broken]);
    assert_eq!(
        find_arc_device(&list(vec![p])).unwrap_err().message,
        "clGetDeviceInfo failed with OpenCL error -6"
    );
    // A platform that does not count its GPUs is passed over.
    let mut p = platform("Intel OpenCL", "Intel", vec![device("Arc", "Intel")]);
    p.count_code = -1;
    assert_eq!(
        find_arc_device(&list(vec![p])).unwrap_err().message,
        "Intel Arc OpenCL GPU was not found"
    );
}

#[test]
fn arc_runtime_reads_driver_answers() {
    assert_eq!(bytes_to_string(b"Arc\0rest"), "Arc");
    assert_eq!(bytes_to_string(b"Arc \xff"), "Arc \u{fffd}");
    assert!(check("clFinish", 0).is_ok());
    assert_eq!(
        check("clFinish", -5).unwrap_err().message,
        "clFinish failed with OpenCL error -5"
    );
    assert!(check_create("clCreateBuffer", 0, true).is_err());
    assert!(check_create("clCreateBuffer", 0, false).is_ok());
    assert!(build_error(-11, "log").message.ends_with("(-11): log"));
    assert_eq!(build_log(&text("line")), "line");
    assert_eq!(build_log(&refused(-33, 0)), "");
    assert_eq!(
        check_library("OpenCL.dll", true).unwrap_err().message,
        "OpenCL.dll could not be loaded"
    );
    assert!(check_library("OpenCL.dll", false).is_ok());
    assert_eq!(
        check_symbol("clFinish", true).unwrap_err().message,
        "OpenCL symbol clFinish is unavailable"
    );
    assert!(ARC_KERNEL_SRC.contains("__kernel"));
    for i in 0..KERNEL_COUNT {
        assert!(ARC_KERNEL_SRC.contains(kernel_at(i).name()));
    }
}

#[test]
fn arc_memory_has_at_least_one_byte() {
    let runtime = ArcRuntime {
        platform_name: String::new(),
        device_name: String::new(),
    };
    let empty = runtime.alloc_buffer(0);
    assert_eq!((empty.bytes, empty.copies_host), (1, false));
    let copied = runtime.from_bytes(4);
    assert_eq!((copied.bytes, copied.copies_host), (4, true));
    assert!(!runtime.from_bytes(0).copies_host);
    let mem = ArcMem::created(copied, 0, false).unwrap();
    assert_eq!(mem.bytes(), 4);
    assert!(mem.write(4).is_ok());
    assert_eq!(
        mem.write(5).unwrap_err().message,
        "Arc buffer write too large: 5 > 4"
    );
    assert_eq!(
        mem.read(9).unwrap_err().message,
        "Arc buffer read too large: 9 > 4"
    );
    assert_eq!(
        ArcMem::created(copied, -61, true).unwrap_err().message,
        "clCreateBuffer failed with OpenCL error -61"
    );
    assert_eq!(launch_1d(128).local, Some(64));
    assert_eq!(launch_1d(100).local, None);
    assert_eq!(launch_1d(0).global, 1);
}

#[test]
fn arc_runtime_comes_up_step_by_step() {
    let fine = |i: usize| match i {
        0 => LoadEvent::Driver(Ok(())),
        1 => LoadEvent::Searched(Ok(())),
        2 => LoadEvent::Context {
            code: 0,
            is_null: false,
        },
        3 => LoadEvent::Queue {
            code: 0,
            is_null: false,
        },
        4 => LoadEvent::Program {
            code: 0,
            is_null: false,
        },
        5 => LoadEvent::Built {
            code: 0,
            log: text(""),
        },
        _ => LoadEvent::Kernel {
            index: i - 6,
            code: 0,
            is_null: false,
        },
    };
    assert!(matches!(load_step(fine(0)), LoadAction::Search));
    assert!(matches!(load_step(fine(1)), LoadAction::CreateContext));
    assert!(matches!(load_step(fine(2)), LoadAction::CreateQueue));
    assert!(matches!(load_step(fine(3)), LoadAction::CreateProgram));
    assert!(matches!(load_step(fine(4)), LoadAction::Build));
    for i in 5..17 {
        match load_step(fine(i)) {
            LoadAction::CreateKernel { index } => assert_eq!(index, i - 5),
            other => panic!("{other:?}"),
        }
    }
    assert!(matches!(load_step(fine(17)), LoadAction::Ready));
    match load_step(LoadEvent::Built {
        code: -11,
        log: text("bad source"),
    }) {
        LoadAction::Fail {
            release_program,
            error,
        } => {
            assert!(release_program);
            assert_eq!(
                error.message,
                "Arc OpenCL program build failed (-11): bad source"
            );
        }
        other => panic!("{other:?}"),
    }
    match load_step(LoadEvent::Kernel {
        index: 1,
        code: -46,
        is_null: true,
    }) {
        LoadAction::Fail {
            release_program,
            error,
        } => {
            assert!(!release_program);
            assert_eq!(
                error.message,
                "ds4_rmsnorm_weight failed with OpenCL error -46"
            );
        }
        other => panic!("{other:?}"),
    }
    let lost = Ds4Error::new(Ds4ErrorKind::NotImplemented, "no device".to_string());
    match load_step(LoadEvent::Searched(Err(lost))) {
        LoadAction::Fail { error, .. } => assert_eq!(error.message, "no device"),
        other => panic!("{other:?}"),
    }
}

// ---- The model ----

fn dims() -> ModelDims {
    ModelDims {
        vocab: 16,
        hidden: 8,
        layers: 2,
        n_heads: 2,
        head_dim: 4,
        ffn: 8,
    }
}

fn tensor(name: &str, dims: &[u32], dtype: GgufDType) -> TensorDescriptor {
    TensorDescriptor {
        name: name.to_string(),
        dims: dims.to_vec(),
        dtype,
    }
}

fn model(more: Vec<TensorDescriptor>) -> ArcModel {
    let mut descriptors = vec![
        tensor("token_embd.weight", &[16, 8], GgufDType::F16),
        tensor("output.weight", &[8, 16], GgufDType::F32),
        tensor("blk.0.attn_norm.weight", &[8], GgufDType::F32),
        tensor("blk.0.attn_q.weight", &[8, 8], GgufDType::Q8_0),
    ];
    descriptors.extend(more);
    let spec = ModelSpec {
        dims: dims(),
        block_kind: TransformerBlockKind::RoutedMoe,
        moe: Some(MoeSpec {
            experts: 3,
            active_experts: 2,
        }),
        token_embedding: "token_embd.weight".to_string(),
        output_norm: None,
        output: "output.weight".to_string(),
        rms_norm_epsilon: 1e-6f32.to_bits(),
        rope_freq_base: 10_000.0f32.to_bits(),
    };
    ArcModel::new(spec, GgufMetadata::default(), descriptors)
}

#[test]
fn arc_launches_carry_sizes_and_formats() {
    let m = model(vec![]);
    let names = layer_tensor_names(0);
    let l = m
        .launch(
            &names,
            LayerOp::Matvec {
                from: LayerBuf::AttnIn,
                weight: LayerWeight::AttnQ,
                to: LayerBuf::Q,
                in_dim: 8,
                out_dim: 8,
            },
        )
        .unwrap();
    assert_eq!(l.kernel, KernelId::MatvecWeight);
    assert_eq!(l.items, 8);
    assert_eq!(
        l.args,
        vec![
            ArcArg::Buffer(LayerBuf::AttnIn),
            ArcArg::Weight(LayerWeight::AttnQ),
            ArcArg::Number(2),
            ArcArg::Number(8),
            ArcArg::Number(8),
            ArcArg::Buffer(LayerBuf::Q),
        ]
    );
    let err = m
        .launch(
            &names,
            LayerOp::Matvec {
                from: LayerBuf::AttnIn,
                weight: LayerWeight::AttnQ,
                to: LayerBuf::Q,
                in_dim: 8,
                out_dim: 4,
            },
        )
        .unwrap_err();
    assert_eq!(
        err.message,
        "blk.0.attn_q.weight matvec shape mismatch: got 8x8, expected 8x4"
    );
    let l = m
        .launch(
            &names,
            LayerOp::Rope {
                buf: LayerBuf::K,
                pos: 3,
                n_heads: 2,
                head_dim: 4,
            },
        )
        .unwrap();
    assert_eq!((l.kernel, l.items), (KernelId::RopeF32, 4));
    let err = m
        .launch(
            &names,
            LayerOp::RmsNorm {
                from: LayerBuf::X,
                weight: LayerWeight::FfnNorm,
                to: LayerBuf::FfnIn,
                n: 8,
            },
        )
        .unwrap_err();
    assert_eq!(err.message, "missing Arc tensor blk.0.ffn_norm.weight");
    let l = m.launch_embedding(5).unwrap();
    assert_eq!(l.kernel, KernelId::EmbeddingWeight);
    assert_eq!(l.args[1], ArcArg::Number(1));
    assert_eq!(l.args[2], ArcArg::Token(5));
    assert_eq!(
        m.launch_embedding(16).unwrap_err().message,
        "token id 16 is outside vocabulary size 16"
    );
    let l = launch_add_scaled(LayerBuf::X, LayerBuf::Down, 8);
    assert_eq!(l.kernel, KernelId::AddScaledInplaceF32);
    assert_eq!(l.args[2], ArcArg::Scale);
}

#[test]
fn arc_sequence_goes_token_by_token() {
    let m = model(vec![]);
    assert_eq!(
        m.compute_sequence_logits(0, 16).unwrap_err().message,
        "token sequence is empty"
    );
    assert_eq!(
        m.compute_sequence_logits(2, 15).unwrap_err().message,
        "logit buffer too small: 15 < 16"
    );
    let mut plan = m.compute_sequence_logits(2, 16).unwrap();
    assert_eq!((plan.cache_len, plan.layers), (16, 2));
    let mut steps = vec![];
    while plan.step != SequenceStep::Done {
        steps.push(plan.step);
        plan.advance();
    }
    assert_eq!(
        steps,
        vec![
            SequenceStep::Embed { pos: 0 },
            SequenceStep::Layer { pos: 0, layer: 0 },
            SequenceStep::Layer { pos: 0, layer: 1 },
            SequenceStep::Embed { pos: 1 },
            SequenceStep::Layer { pos: 1, layer: 0 },
            SequenceStep::Layer { pos: 1, layer: 1 },
            SequenceStep::Head,
        ]
    );
    let at = SequencePlan::layer_pos(3);
    assert_eq!((at.rope_pos, at.cache_pos, at.prefix_len), (3, 3, 4));
    assert_eq!(row_span(0, 8), (0, 32));
    assert_eq!(row_span(2, 8), (64, 96));
}

fn per_expert() -> ExpertTensorLayout {
    ExpertTensorLayout::PerExpert {
        gate_pattern: "blk.{layer}.g.{expert}".to_string(),
        up_pattern: "blk.{layer}.u.{expert}".to_string(),
        down_pattern: "blk.{layer}.d.{expert}".to_string(),
    }
}

fn bytes(n: usize) -> ExpertData {
    ExpertData {
        gate: Ok(vec![1; n]),
        up: Ok(vec![2; n]),
        down: Ok(vec![3; n]),
    }
}

#[test]
fn arc_experts_are_taken_one_by_one() {
    let mut more = vec![];
    for e in [0, 2] {
        more.push(tensor(&format!("blk.1.g.{e}"), &[8, 4], GgufDType::F32));
        more.push(tensor(&format!("blk.1.u.{e}"), &[8, 4], GgufDType::F32));
        more.push(tensor(&format!("blk.1.d.{e}"), &[4, 8], GgufDType::F32));
    }
    let m = model(more);
    let plan = m
        .launch_routed_moe_ffn(
            &per_expert(),
            1,
            &[2, 0],
            vec![bytes(128), bytes(128)],
            &None,
            &None,
            &None,
        )
        .unwrap();
    assert_eq!(plan.runs.len(), 2);
    assert_eq!(plan.runs[0].expert, 2);
    assert_eq!(plan.runs[0].tensors.gate_name, "blk.1.g.2");
    assert_eq!(plan.runs[0].tensors.up.bytes, vec![2; 128]);
    assert_eq!(plan.runs[0].ops.len(), 4);
    assert_eq!(plan.runs[1].tensors.down.descriptor.name, "blk.1.d.0");
    assert!(plan.shared.is_none());
    let l = plan.launches(8);
    assert_eq!(l.zeros, 8);
    let kernels: Vec<KernelId> = l.steps.iter().map(|s| s.launch.kernel).collect();
    let expert = [
        KernelId::MatvecWeight,
        KernelId::MatvecWeight,
        KernelId::SiluProductF32,
        KernelId::MatvecWeight,
        KernelId::AddScaledInplaceF32,
    ];
    let mut expected = expert.to_vec();
    expected.extend(expert);
    expected.push(KernelId::AddInplaceF32);
    assert_eq!(kernels, expected);
    assert_eq!(l.steps[5].part, MoePart::Expert(1));
    assert_eq!(
        l.steps[9].launch.args,
        vec![
            ArcArg::Buffer(LayerBuf::Sum),
            ArcArg::Buffer(LayerBuf::Down),
            ArcArg::Scale,
            ArcArg::Number(8)
        ]
    );
    assert_eq!(
        l.steps[10].launch.args,
        vec![
            ArcArg::Buffer(LayerBuf::X),
            ArcArg::Buffer(LayerBuf::Sum),
            ArcArg::Number(8)
        ]
    );
    let err = m
        .launch_routed_moe_ffn(
            &per_expert(),
            1,
            &[0, 1],
            vec![bytes(128), bytes(128)],
            &None,
            &None,
            &None,
        )
        .unwrap_err();
    assert_eq!(err.message, "missing tensor descriptor blk.1.g.1");
    let mut unread = bytes(128);
    unread.up = Err(Ds4Error::new(Ds4ErrorKind::Io, "short file".to_string()));
    let err = m
        .launch_routed_moe_ffn(&per_expert(), 1, &[0], vec![unread], &None, &None, &None)
        .unwrap_err();
    assert_eq!((err.kind, err.message.as_str()), (Ds4ErrorKind::Io, "short file"));
}

#[test]
fn arc_expert_shapes_must_fit() {
    let m = model(vec![
        tensor("blk.0.g.0", &[8, 4], GgufDType::F32),
        tensor("blk.0.u.0", &[8, 5], GgufDType::F32),
        tensor("blk.0.d.0", &[4, 8], GgufDType::F32),
        tensor("blk.0.g.1", &[8, 4], GgufDType::Iq2Xxs),
    ]);
    let err = m
        .expert_run(&per_expert(), 0, 0, bytes(4))
        .unwrap_err();
    assert_eq!(
        err.message,
        "FFN gate/up width mismatch: blk.0.g.0=4, blk.0.u.0=5"
    );
    let err = m
        .load_expert_tensor_set(&per_expert(), 0, 1, bytes(4))
        .unwrap_err();
    assert_eq!(err.kind, Ds4ErrorKind::NotImplemented);
}

#[test]
fn arc_packed_experts_are_cut_out() {
    let m = model(vec![
        tensor("blk.0.gates", &[3, 2, 4], GgufDType::F32),
        tensor("blk.0.ups", &[3, 2, 4], GgufDType::F32),
        tensor("blk.0.downs", &[3, 4, 2], GgufDType::F32),
        tensor("sg", &[8, 4], GgufDType::F32),
        tensor("su", &[8, 4], GgufDType::F32),
        tensor("sd", &[4, 8], GgufDType::F32),
    ]);
    let layout = ExpertTensorLayout::Packed {
        gate: "blk.{layer}.gates".to_string(),
        up: "blk.{layer}.ups".to_string(),
        down: "blk.{layer}.downs".to_string(),
    };
    let mut all = vec![];
    for i in 0..24 {
        all.extend_from_slice(&(i as f32).to_le_bytes());
    }
    let data = ExpertData {
        gate: Ok(all.clone()),
        up: Ok(all.clone()),
        down: Ok(all.clone()),
    };
    let plan = m
        .launch_routed_moe_ffn(
            &layout,
            0,
            &[1],
            vec![data],
            &Some("sg".to_string()),
            &Some("su".to_string()),
            &Some("sd".to_string()),
        )
        .unwrap();
    let set = &plan.runs[0].tensors;
    assert_eq!(set.gate_name, "blk.0.gates#1");
    assert_eq!(set.gate.descriptor.dims, vec![2, 4]);
    assert_eq!(set.gate.bytes, all[32..64].to_vec());
    assert_eq!(plan.shared.as_ref().unwrap().ops.len(), 4);
    let l = plan.launches(8);
    let parts: Vec<MoePart> = l.steps.iter().map(|s| s.part).collect();
    let mut expected = vec![MoePart::Expert(0); 5];
    expected.extend([MoePart::Shared; 5]);
    expected.push(MoePart::Block);
    assert_eq!(parts, expected);
    let add = &l.steps[9].launch;
    assert_eq!((add.kernel, add.items), (KernelId::AddInplaceF32, 8));
    assert_eq!(
        add.args,
        vec![
            ArcArg::Buffer(LayerBuf::Sum),
            ArcArg::Buffer(LayerBuf::Down),
            ArcArg::Number(8)
        ]
    );
}
