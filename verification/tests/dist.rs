use byteorder::{LittleEndian, WriteBytesExt};

use ds4::dist::coordinator::{Coordinator, LayerSlice};
use ds4::dist::msg;
use ds4::dist::protocol::{
    decode_payload, decode_tensor, dtype_from_u8, dtype_to_u8, encode_tensor, frame_hello,
    frame_result, frame_snapshot_begin, frame_snapshot_chunk, frame_snapshot_end,
    frame_snapshot_req, frame_work, role_from_u8, role_to_u8, Decoded, Frame, Hello, ResultMsg,
    SnapshotBegin, SnapshotChunk, SnapshotEnd, SnapshotReq, WireError, Work,
    DEFAULT_ACTIVATION_BITS_WIRE, MAGIC, MAX_FRAME_PAYLOAD, WIRE_VERSION,
};
use ds4::dist::worker::{tensor_token_count, Worker};
use ds4::dist::{
    distributed_route_ready, eval_layer_slice, eval_output_head_from_hc, is_distributed,
    layer_slice_reset, DEFAULT_ACTIVATION_BITS, DS4_DIST_WIRE_MAGIC, SNAPSHOT_CHUNK_BYTES,
    WIRE_MAGIC,
};
use ds4::le::ByteReader;
use ds4::tensor::{DType, Shape, Tensor};
use ds4::types::{
    Ds4DistributedOptions, Ds4DistributedRole, Ds4Error, Ds4ErrorKind, Ds4LayerSlice, Ds4Result,
};

fn bits(values: &[f32]) -> Vec<u32> {
    values.iter().map(|v| v.to_bits()).collect()
}

fn floats(values: &[u32]) -> Vec<f32> {
    values.iter().map(|v| f32::from_bits(*v)).collect()
}

fn tensor(values: &[f32], dims: &[usize]) -> Tensor {
    Tensor::from_f32_bits(&bits(values), Shape::new(dims.to_vec()))
}

fn as_f32(t: &Tensor) -> Vec<f32> {
    floats(&t.as_f32_bits())
}

fn tiny_tensor() -> Tensor {
    tensor(&[1.0, 2.0, 3.0, 4.0], &[2, 2])
}

// ---- Protocol ----

#[test]
fn hello_roundtrip() {
    let h = Hello::worker(32, 4096);
    let bytes = h.encode();
    let h2 = Hello::decode(&bytes).unwrap();
    assert_eq!(h, h2);
    assert_eq!(h.wire_version, WIRE_VERSION);
}

#[test]
fn hello_bytes_are_laid_out_in_order() {
    let h = Hello::coordinator(40, 4096);
    assert_eq!(
        h.encode(),
        vec![1, 0, 0, 0, 1, 40, 0, 0, 0, 0, 16, 0, 0, 32]
    );
}

#[test]
fn hello_short_payload_rejected() {
    let err = Hello::decode(&[0u8; 5]).unwrap_err();
    assert_eq!(err.kind, Ds4ErrorKind::InvalidArgument);
}

#[test]
fn work_roundtrip() {
    let w = Work {
        req_id: 42,
        tokens: vec![1, 2, 3, 4, 5],
        pos0: 7,
        layer_start: 4,
        layer_end: 16,
        input_hc: tiny_tensor(),
    };
    let bytes = w.encode();
    let w2 = Work::decode(&bytes).unwrap();
    assert_eq!(w.req_id, w2.req_id);
    assert_eq!(w.tokens, w2.tokens);
    assert_eq!(w.pos0, w2.pos0);
    assert_eq!(w.layer_start, w2.layer_start);
    assert_eq!(w.layer_end, w2.layer_end);
    assert_eq!(as_f32(&w.input_hc), as_f32(&w2.input_hc));
    assert!(w == w2);
}

#[test]
fn result_roundtrip_ok() {
    let r = ResultMsg {
        req_id: 100,
        ok: true,
        error: None,
        output_hc: tiny_tensor(),
        output_logits: tiny_tensor(),
    };
    let bytes = r.encode();
    let r2 = ResultMsg::decode(&bytes).unwrap();
    assert_eq!(r.req_id, r2.req_id);
    assert_eq!(r.ok, r2.ok);
    assert_eq!(r.error, r2.error);
    assert_eq!(as_f32(&r.output_hc), as_f32(&r2.output_hc));
    assert_eq!(as_f32(&r.output_logits), as_f32(&r2.output_logits));
    assert!(r == r2);
}

#[test]
fn result_roundtrip_with_error() {
    let r = ResultMsg {
        req_id: 101,
        ok: false,
        error: Some("forward failed: NaN".to_string()),
        output_hc: tiny_tensor(),
        output_logits: tiny_tensor(),
    };
    let bytes = r.encode();
    let r2 = ResultMsg::decode(&bytes).unwrap();
    assert!(!r2.ok);
    assert_eq!(r2.error.as_deref(), Some("forward failed: NaN"));
}

#[test]
fn result_error_that_is_no_text_is_made_readable() {
    let r = ResultMsg {
        req_id: 1,
        ok: false,
        error: Some("ab".to_string()),
        output_hc: tensor(&[], &[0]),
        output_logits: tensor(&[], &[0]),
    };
    let mut bytes = r.encode();
    let at = bytes.windows(2).position(|w| w == b"ab").unwrap();
    bytes[at] = 0xff;
    let r2 = ResultMsg::decode(&bytes).unwrap();
    assert_eq!(r2.error.as_deref(), Some("\u{fffd}b"));
}

#[test]
fn snapshot_chunk_roundtrip() {
    let c = SnapshotChunk {
        snapshot_id: 7,
        chunk_index: 3,
        payload: vec![0xAB; 1024],
    };
    let bytes = c.encode().unwrap();
    let c2 = SnapshotChunk::decode(&bytes).unwrap();
    assert_eq!(c, c2);
}

#[test]
fn snapshot_chunk_oversize_rejected() {
    let c = SnapshotChunk {
        snapshot_id: 1,
        chunk_index: 0,
        payload: vec![0u8; SNAPSHOT_CHUNK_BYTES + 1],
    };
    let err = c.encode().unwrap_err();
    assert_eq!(err.kind, Ds4ErrorKind::InvalidArgument);
}

#[test]
fn snapshot_begin_roundtrip() {
    let b = SnapshotBegin {
        snapshot_id: 42,
        total_bytes: 1_000_000,
        chunk_count: 128,
        metadata: vec![1, 2, 3, 4],
    };
    let bytes = b.encode();
    let b2 = SnapshotBegin::decode(&bytes).unwrap();
    assert_eq!(b, b2);
}

#[test]
fn snapshot_end_roundtrip() {
    let e = SnapshotEnd {
        snapshot_id: 42,
        received_bytes: 1_000_000,
        received_chunks: 128,
        crc32: 0xDEAD_BEEF,
    };
    let bytes = e.encode();
    let e2 = SnapshotEnd::decode(&bytes).unwrap();
    assert_eq!(e, e2);
}

#[test]
fn snapshot_req_roundtrip() {
    let r = SnapshotReq {
        snapshot_id: 9,
        last_known_version: 100,
    };
    let bytes = r.encode();
    let r2 = SnapshotReq::decode(&bytes).unwrap();
    assert_eq!(r, r2);
}

#[test]
fn snapshot_payloads_that_end_early_are_rejected() {
    let e = SnapshotEnd {
        snapshot_id: 1,
        received_bytes: 2,
        received_chunks: 3,
        crc32: 4,
    };
    assert!(SnapshotEnd::decode(&e.encode()[..23]).is_err());
    let q = SnapshotReq {
        snapshot_id: 1,
        last_known_version: 2,
    };
    assert!(SnapshotReq::decode(&q.encode()[..15]).is_err());
    let b = SnapshotBegin {
        snapshot_id: 1,
        total_bytes: 2,
        chunk_count: 3,
        metadata: vec![9, 9],
    };
    let bytes = b.encode();
    assert!(SnapshotBegin::decode(&bytes[..bytes.len() - 1]).is_err());
}

#[test]
fn frame_roundtrip() {
    let h = Hello::coordinator(40, 4096);
    let frame = frame_hello(&h).unwrap();
    let bytes = frame.encode();
    let mut cur = ByteReader::new(&bytes);
    let f2 = Frame::read_from(&mut cur).unwrap();
    assert_eq!(f2.magic, MAGIC);
    assert_eq!(f2.msg_type, msg::HELLO);
    let decoded = decode_payload(f2.msg_type, &f2.payload).unwrap();
    match decoded {
        Decoded::Hello(h2) => assert_eq!(h, h2),
        _ => panic!("expected HELLO"),
    }
}

#[test]
fn frame_rejects_bad_magic() {
    let mut bytes = Vec::new();
    bytes.write_u32::<LittleEndian>(0xDEADBEEF).unwrap();
    bytes.write_u32::<LittleEndian>(msg::HELLO).unwrap();
    bytes.write_u32::<LittleEndian>(0).unwrap();
    let mut cur = ByteReader::new(&bytes);
    let err = Frame::read_from(&mut cur).unwrap_err();
    match err {
        WireError::BadMagic { got, expected } => {
            assert_eq!(got, 0xDEADBEEF);
            assert_eq!(expected, MAGIC);
        }
        _ => panic!("expected BadMagic, got {err:?}"),
    }
}

#[test]
fn frame_rejects_oversize_payload() {
    let mut bytes = Vec::new();
    bytes.write_u32::<LittleEndian>(MAGIC).unwrap();
    bytes.write_u32::<LittleEndian>(msg::HELLO).unwrap();
    bytes
        .write_u32::<LittleEndian>((MAX_FRAME_PAYLOAD + 1) as u32)
        .unwrap();
    let mut cur = ByteReader::new(&bytes);
    let err = Frame::read_from(&mut cur).unwrap_err();
    assert!(matches!(err, WireError::PayloadTooLarge { .. }));
}

#[test]
fn frame_that_ends_early_is_a_stream_error() {
    let bytes = frame_hello(&Hello::worker(1, 1)).unwrap().encode();
    let mut cur = ByteReader::new(&bytes[..bytes.len() - 1]);
    let err = Frame::read_from(&mut cur).unwrap_err();
    assert!(matches!(err, WireError::Io(_)));
    assert!(err.message().starts_with("io error: "));
}

#[test]
fn wire_errors_say_what_is_wrong() {
    let e = WireError::BadMagic {
        got: 0xDEAD_BEEF,
        expected: MAGIC,
    };
    assert_eq!(e.message(), "bad magic: got 0xdeadbeef, expected 0x44533444");
}

#[test]
fn decode_payload_dispatches_by_msg_type() {
    let h = Hello::worker(1, 1);
    let frame = frame_hello(&h).unwrap();
    let decoded = decode_payload(frame.msg_type, &frame.payload).unwrap();
    assert!(matches!(decoded, Decoded::Hello(_)));
}

#[test]
fn decode_payload_reads_every_message() {
    let work = Work {
        req_id: 1,
        tokens: vec![2],
        pos0: 3,
        layer_start: 4,
        layer_end: 5,
        input_hc: tiny_tensor(),
    };
    let f = frame_work(&work).unwrap();
    assert!(matches!(
        decode_payload(f.msg_type, &f.payload).unwrap(),
        Decoded::Work(_)
    ));
    let result = ResultMsg {
        req_id: 1,
        ok: true,
        error: None,
        output_hc: tiny_tensor(),
        output_logits: tiny_tensor(),
    };
    let f = frame_result(&result).unwrap();
    assert!(matches!(
        decode_payload(f.msg_type, &f.payload).unwrap(),
        Decoded::Result(_)
    ));
    let f = frame_snapshot_begin(&SnapshotBegin {
        snapshot_id: 1,
        total_bytes: 2,
        chunk_count: 3,
        metadata: vec![],
    })
    .unwrap();
    assert_eq!(f.msg_type, msg::SNAPSHOT_BEGIN);
    assert!(matches!(
        decode_payload(f.msg_type, &f.payload).unwrap(),
        Decoded::SnapshotBegin(_)
    ));
    let f = frame_snapshot_chunk(&SnapshotChunk {
        snapshot_id: 1,
        chunk_index: 2,
        payload: vec![3],
    })
    .unwrap();
    assert_eq!(f.msg_type, msg::SNAPSHOT_CHUNK);
    assert!(matches!(
        decode_payload(f.msg_type, &f.payload).unwrap(),
        Decoded::SnapshotChunk(_)
    ));
    let f = frame_snapshot_end(&SnapshotEnd {
        snapshot_id: 1,
        received_bytes: 2,
        received_chunks: 3,
        crc32: 4,
    })
    .unwrap();
    assert_eq!(f.msg_type, msg::SNAPSHOT_END);
    assert!(matches!(
        decode_payload(f.msg_type, &f.payload).unwrap(),
        Decoded::SnapshotEnd(_)
    ));
    let f = frame_snapshot_req(&SnapshotReq {
        snapshot_id: 1,
        last_known_version: 2,
    })
    .unwrap();
    assert_eq!(f.msg_type, msg::SNAPSHOT_REQ);
    assert!(matches!(
        decode_payload(f.msg_type, &f.payload).unwrap(),
        Decoded::SnapshotReq(_)
    ));
}

#[test]
fn decode_payload_unknown_type_errors() {
    let err = decode_payload(9999, &[]).unwrap_err();
    assert_eq!(err.kind, Ds4ErrorKind::InvalidArgument);
}

#[test]
fn magic_constant_matches_c() {
    assert_eq!(MAGIC, 0x4453_3444);
}

#[test]
fn wire_version_is_one() {
    assert_eq!(WIRE_VERSION, 1);
}

#[test]
fn dtype_roundtrip_all_variants() {
    for tag in 0u8..=8 {
        let _ = dtype_from_u8(tag).unwrap();
        assert_eq!(dtype_to_u8(dtype_from_u8(tag).unwrap()), tag);
    }
    let err = dtype_from_u8(42).unwrap_err();
    assert_eq!(err.kind, Ds4ErrorKind::InvalidArgument);
}

#[test]
fn role_tags_read_back() {
    for role in [
        Ds4DistributedRole::Standalone,
        Ds4DistributedRole::Coordinator,
        Ds4DistributedRole::Worker,
    ] {
        assert_eq!(role_from_u8(role_to_u8(role)).unwrap(), role);
    }
    assert_eq!(
        role_from_u8(9).unwrap_err().kind,
        Ds4ErrorKind::InvalidArgument
    );
}

#[test]
fn tensor_in_frame_survives_roundtrip() {
    let t = tensor(&[0.5, -1.5, 2.5, 3.5], &[4]);
    let mut payload = Vec::new();
    encode_tensor(&mut payload, &t);
    let mut cur = ByteReader::new(&payload);
    let t2 = decode_tensor(&mut cur).unwrap();
    assert_eq!(t.dtype, t2.dtype);
    assert_eq!(t.shape.dims(), t2.shape.dims());
    assert_eq!(as_f32(&t), as_f32(&t2));
}

#[test]
fn frame_write_to_writer_roundtrip() {
    let h = Hello::worker(7, 11);
    let frame = frame_hello(&h).unwrap();
    let mut sink: Vec<u8> = Vec::new();
    frame.write_to(&mut sink).unwrap();
    let mut cur = ByteReader::new(&sink);
    let f2 = Frame::read_from(&mut cur).unwrap();
    assert_eq!(f2.magic, frame.magic);
    assert_eq!(f2.msg_type, frame.msg_type);
    assert_eq!(f2.payload, frame.payload);
}

#[test]
fn frame_payload_is_bounded() {
    assert!(Frame::new(msg::WORK, vec![0u8; MAX_FRAME_PAYLOAD]).is_ok());
    let err = Frame::new(msg::WORK, vec![0u8; MAX_FRAME_PAYLOAD + 1]).unwrap_err();
    assert_eq!(err.kind, Ds4ErrorKind::InvalidArgument);
    assert_eq!(
        err.message,
        "Frame::new: payload too large: 16777217 > 16777216"
    );
}

// ---- Routes without a session ----

struct ProbeSession;

#[test]
fn wire_constants_match_c() {
    assert_eq!(DS4_DIST_WIRE_MAGIC, 0x4453_3444);
    assert_eq!(SNAPSHOT_CHUNK_BYTES, 8 * 1024 * 1024);
    assert_eq!(msg::HELLO, 1);
    assert_eq!(msg::WORK, 3);
    assert_eq!(msg::RESULT, 4);
    assert_eq!(DEFAULT_ACTIVATION_BITS, 32);
}

#[test]
fn route_helpers_fail_closed_without_attached_session() {
    let mut s = ProbeSession;
    layer_slice_reset(&mut s).unwrap();
    assert!(!distributed_route_ready(&s).unwrap());
    assert!(!is_distributed(&s));
}

#[test]
fn eval_layer_slice_zero_range_copies_input() {
    let mut s = ProbeSession;
    let input = tensor(&[0.0; 4], &[4]);
    let mut output_hc = tensor(&[1.0; 4], &[4]);
    let mut output_logits = tensor(&[2.0; 4], &[4]);
    eval_layer_slice(
        &mut s,
        &[1, 2, 3],
        0,
        0,
        0,
        &input,
        &mut output_hc,
        &mut output_logits,
    )
    .unwrap();
    assert_eq!(as_f32(&output_hc), vec![0.0; 4]);
    assert!(as_f32(&output_logits).is_empty());
}

#[test]
fn eval_layer_slice_needs_a_route_for_layers() {
    let mut s = ProbeSession;
    let input = tensor(&[0.0; 4], &[4]);
    let mut output_hc = tensor(&[1.0; 4], &[4]);
    let mut output_logits = tensor(&[2.0; 4], &[4]);
    let err = eval_layer_slice(
        &mut s,
        &[],
        0,
        0,
        1,
        &input,
        &mut output_hc,
        &mut output_logits,
    )
    .unwrap_err();
    assert_eq!(err.kind, Ds4ErrorKind::NotImplemented);
    assert_eq!(as_f32(&output_hc), vec![1.0; 4]);
}

#[test]
fn eval_output_head_from_hc_fails_without_route() {
    let mut s = ProbeSession;
    let hidden = tensor(&[0.0; 4], &[4]);
    let mut logits = tensor(&[0.0; 4], &[4]);
    let err = eval_output_head_from_hc(&mut s, &hidden, 1, &mut logits);
    assert!(err.is_err());
}

#[test]
fn magic_exported_at_crate_root() {
    assert_eq!(WIRE_MAGIC, 0x4453_3444);
}

#[test]
fn is_distributed_false_for_plain_send_type() {
    assert!(!is_distributed(&ProbeSession));
}

// ---- Coordinator ----

fn slice(start: usize, end: usize, has_output: bool) -> Ds4LayerSlice {
    Ds4LayerSlice {
        start,
        end,
        has_output,
        set: true,
    }
}

fn coordinator_opts() -> Ds4DistributedOptions {
    Ds4DistributedOptions {
        role: Ds4DistributedRole::Coordinator,
        activation_bits: 16,
        layers: slice(0, 0, false),
    }
}

fn worker_opts() -> Ds4DistributedOptions {
    Ds4DistributedOptions {
        role: Ds4DistributedRole::Worker,
        activation_bits: 0,
        layers: slice(0, 32, true),
    }
}

fn accept(coord: &mut Coordinator, id: u32, hello: &Hello) {
    let frame = Frame::new(msg::HELLO, hello.encode()).unwrap();
    let bytes = frame.encode();
    coord
        .accept_worker(id, &mut ByteReader::new(&bytes))
        .unwrap();
}

#[test]
fn coordinator_rejects_bad_magic() {
    let mut coord = Coordinator::new(coordinator_opts());
    let mut bytes = Vec::new();
    bytes.extend_from_slice(&0xDEADBEEFu32.to_le_bytes());
    bytes.extend_from_slice(&msg::HELLO.to_le_bytes());
    bytes.extend_from_slice(&0u32.to_le_bytes());
    let err = coord
        .accept_worker(1, &mut ByteReader::new(&bytes))
        .unwrap_err();
    assert!(matches!(err, WireError::BadMagic { .. }));
}

#[test]
fn coordinator_rejects_bad_version() {
    let mut coord = Coordinator::new(coordinator_opts());
    let mut hello = Hello::worker(32, 4096);
    hello.wire_version = 999;
    let payload = hello.encode();
    let frame = Frame::new(msg::HELLO, payload).unwrap();
    let bytes = frame.encode();
    let err = coord
        .accept_worker(1, &mut ByteReader::new(&bytes))
        .unwrap_err();
    assert!(matches!(err, WireError::BadVersion(999)));
    assert_eq!(coord.n_workers(), 0);
}

#[test]
fn coordinator_rejects_other_messages() {
    let mut coord = Coordinator::new(coordinator_opts());
    let bytes = Frame::new(msg::WORK, vec![]).unwrap().encode();
    let err = coord
        .accept_worker(1, &mut ByteReader::new(&bytes))
        .unwrap_err();
    assert!(matches!(err, WireError::BadMsgType(3)));
}

#[test]
fn coordinator_accepts_good_hello() {
    let mut coord = Coordinator::new(coordinator_opts());
    let hello = Hello::worker(32, 4096);
    let frame = Frame::new(msg::HELLO, hello.encode()).unwrap();
    let bytes = frame.encode();
    let got = coord
        .accept_worker(1, &mut ByteReader::new(&bytes))
        .unwrap();
    assert_eq!(got.wire_version, WIRE_VERSION);
    assert_eq!(got.n_layers, 32);
    assert_eq!(coord.n_workers(), 1);
}

fn probe_layers(input: Ds4Result<Vec<u32>>, f: fn(f32) -> f32) -> Ds4Result<Vec<u32>> {
    let values: Vec<f32> = floats(&input?).into_iter().map(f).collect();
    Ok(bits(&values))
}

#[test]
fn dispatch_layer_slice_round_trips_through_worker() {
    let worker = Worker::new(worker_opts(), 32, 4);
    let mut to_coord = Vec::new();
    worker.send_hello(&mut to_coord).unwrap();

    let mut coord = Coordinator::new(coordinator_opts());
    coord
        .accept_worker(3, &mut ByteReader::new(&to_coord))
        .unwrap();

    let input = tensor(&[1.0, 2.0, 3.0, 4.0], &[1, 4]);
    let (id, work) = coord.dispatch_layer_slice(&[1], 0, 0, 32, &input).unwrap();
    assert_eq!(id, 3);
    let mut to_worker = Vec::new();
    coord.send_work(id, &work, &mut to_worker).unwrap();

    let got = worker.read_work(&mut ByteReader::new(&to_worker)).unwrap();
    let hidden = probe_layers(worker.layer_input(&got), |v| v * 2.0);
    let head = worker.head_request(&got).unwrap().unwrap();
    assert_eq!((head.n_tokens, head.head_elements), (1, 4));
    let outcome = worker.dispatch(&got, hidden.clone(), hidden);
    let mut back = Vec::new();
    worker
        .send_result(&worker.answer(got.req_id, &outcome), &mut back)
        .unwrap();

    let out = coord
        .await_result(work.req_id, &mut ByteReader::new(&back))
        .unwrap();
    assert_eq!(as_f32(&out.output_hc), vec![2.0, 4.0, 6.0, 8.0]);
}

#[test]
fn coordinator_refuses_the_result_of_another_request() {
    let coord = Coordinator::new(coordinator_opts());
    let worker = Worker::new(worker_opts(), 32, 4);
    let failed: Ds4Result<(Tensor, Tensor)> = Err(Ds4Error::new(
        Ds4ErrorKind::Backend,
        "kaboom".to_string(),
    ));
    let mut back = Vec::new();
    worker
        .send_result(&worker.answer(8, &failed), &mut back)
        .unwrap();
    let err = coord
        .await_result(7, &mut ByteReader::new(&back))
        .unwrap_err();
    assert_eq!(err.message, "RESULT req_id mismatch: sent 7, got 8");
    let err = coord
        .await_result(8, &mut ByteReader::new(&back))
        .unwrap_err();
    assert_eq!(err.kind, Ds4ErrorKind::Backend);
    assert_eq!(err.message, "kaboom");
}

#[test]
fn route_layer_slice_finds_correct_worker() {
    let mut coord = Coordinator::new(coordinator_opts());
    accept(&mut coord, 7, &Hello::worker(64, 4096));
    assert_eq!(coord.route_layer_slice(0, 64), Some(7));
    assert_eq!(coord.route_layer_slice(0, 32), Some(7));
    assert_eq!(coord.route_layer_slice(64, 128), None);
}

#[test]
fn dispatch_without_a_worker_is_refused() {
    let mut coord = Coordinator::new(coordinator_opts());
    let err = coord
        .dispatch_layer_slice(&[1], 0, 0, 4, &tiny_tensor())
        .unwrap_err();
    assert_eq!(err.kind, Ds4ErrorKind::InvalidArgument);
    assert_eq!(coord.next_req_id(), 1);
}

#[test]
fn next_req_id_is_monotonic() {
    let mut coord = Coordinator::new(coordinator_opts());
    let a = coord.next_req_id();
    let b = coord.next_req_id();
    let c = coord.next_req_id();
    assert!(a < b);
    assert!(b < c);
}

#[test]
fn next_req_id_wraps_without_zero() {
    let mut coord = Coordinator::new(coordinator_opts());
    coord.req_id = u64::MAX;
    assert_eq!(coord.next_req_id(), u64::MAX);
    assert_eq!(coord.next_req_id(), 1);
}

#[test]
fn worker_default_activation_bits_matches_opts() {
    let mut coord = Coordinator::new(coordinator_opts());
    accept(&mut coord, 1, &Hello::worker(8, 4096));
    let w = coord.worker(1).unwrap();
    assert_eq!(w.activation_bits, DEFAULT_ACTIVATION_BITS_WIRE);
    assert_eq!(coord.activation_bits, 16);
}

#[test]
fn layer_slice_covers() {
    let s = LayerSlice {
        layer_start: 4,
        layer_end: 8,
        has_output: true,
    };
    assert!(s.covers(4));
    assert!(s.covers(7));
    assert!(!s.covers(3));
    assert!(!s.covers(8));
}

#[test]
fn layer_slice_from_ds4() {
    let ds = slice(8, 16, true);
    let s = LayerSlice::from_ds4(&ds);
    assert_eq!(s.layer_start, 8);
    assert_eq!(s.layer_end, 16);
    assert!(s.has_output);
}

#[test]
fn send_work_returns_error_for_unknown_worker() {
    let coord = Coordinator::new(coordinator_opts());
    let work = Work {
        req_id: 1,
        tokens: vec![],
        pos0: 0,
        layer_start: 0,
        layer_end: 0,
        input_hc: tensor(&[0.0; 4], &[4]),
    };
    let mut out = Vec::new();
    let err = coord.send_work(42, &work, &mut out).unwrap_err();
    assert_eq!(err.kind, Ds4ErrorKind::InvalidArgument);
    assert!(out.is_empty());
    let result = ResultMsg {
        req_id: 1,
        ok: true,
        error: None,
        output_hc: tiny_tensor(),
        output_logits: tiny_tensor(),
    };
    let err = coord.write_result(42, &result, &mut out).unwrap_err();
    assert_eq!(err.message, "no worker 42");
}

// ---- Worker ----

fn make_worker() -> Worker {
    Worker::new(worker_opts(), 32, 4096)
}

#[test]
fn worker_sends_hello_with_correct_magic() {
    let w = make_worker();
    let mut bytes = Vec::new();
    w.send_hello(&mut bytes).unwrap();
    assert!(bytes.len() >= 12);
    let magic = u32::from_le_bytes([bytes[0], bytes[1], bytes[2], bytes[3]]);
    let mtype = u32::from_le_bytes([bytes[4], bytes[5], bytes[6], bytes[7]]);
    assert_eq!(magic, 0x4453_3444);
    assert_eq!(mtype, msg::HELLO);
}

#[test]
fn worker_hello_carries_injected_bad_version() {
    let w = make_worker();
    let mut bad = Hello::worker(32, 4096);
    bad.wire_version = 999;
    let mut bytes = Vec::new();
    w.send_hello_raw(&bad, &mut bytes).unwrap();
    let mut cur = ByteReader::new(&bytes);
    let frame = Frame::read_from(&mut cur).unwrap();
    let h = Hello::decode(&frame.payload).unwrap();
    assert_eq!(h.wire_version, 999);
}

fn work_of(req_id: u64, tokens: Vec<u32>, values: &[f32]) -> Work {
    Work {
        req_id,
        tokens,
        pos0: 0,
        layer_start: 0,
        layer_end: 32,
        input_hc: tensor(values, &[1, 4]),
    }
}

fn probe_dispatch(w: &Worker, work: &Work) -> Ds4Result<(Tensor, Tensor)> {
    let hidden = probe_layers(w.layer_input(work), |v| v + 1.0)?;
    let request = w.head_request(work)?.unwrap();
    let base = f32::from_bits(hidden[0]);
    let head = bits(&vec![base; request.n_tokens * request.head_elements]);
    w.dispatch(work, Ok(hidden), Ok(head))
}

#[test]
fn worker_dispatch_runs_model_and_output_head() {
    let w = make_worker();
    let work = work_of(1, vec![9], &[1.0, 2.0, 3.0, 4.0]);
    let (out_hc, out_logits) = probe_dispatch(&w, &work).unwrap();
    assert_eq!(as_f32(&out_hc), vec![2.0, 3.0, 4.0, 5.0]);
    assert_eq!(out_logits.shape.dims(), &[1, 4096]);
    assert!(as_f32(&out_logits).iter().all(|v| *v == 2.0));
}

#[test]
fn worker_serve_one_sends_success_result() {
    let w = make_worker();
    let work = work_of(7, vec![1], &[1.0; 4]);
    let frame = Frame::new(msg::WORK, work.encode()).unwrap();
    let received = frame.encode();
    let got = w.read_work(&mut ByteReader::new(&received)).unwrap();
    let outcome = probe_dispatch(&w, &got);
    let mut bytes = Vec::new();
    w.send_result(&w.answer(got.req_id, &outcome), &mut bytes)
        .unwrap();
    let mut cur = ByteReader::new(&bytes);
    let result_frame = Frame::read_from(&mut cur).unwrap();
    assert_eq!(result_frame.msg_type, msg::RESULT);
    let result = ResultMsg::decode(&result_frame.payload).unwrap();
    assert!(result.ok);
    assert_eq!(result.req_id, 7);
    assert_eq!(as_f32(&result.output_hc), vec![2.0; 4]);
}

#[test]
fn worker_send_result_writes_frame() {
    let w = make_worker();
    let result = ResultMsg {
        req_id: 5,
        ok: true,
        error: None,
        output_hc: tensor(&[1.0, 2.0], &[2]),
        output_logits: tensor(&[3.0, 4.0], &[2]),
    };
    let mut bytes = Vec::new();
    w.send_result(&result, &mut bytes).unwrap();
    let mut cur = ByteReader::new(&bytes);
    let frame = Frame::read_from(&mut cur).unwrap();
    assert_eq!(frame.magic, 0x4453_3444);
    assert_eq!(frame.msg_type, msg::RESULT);
    let r2 = ResultMsg::decode(&frame.payload).unwrap();
    assert_eq!(r2.req_id, 5);
    assert!(r2.ok);
    assert_eq!(as_f32(&r2.output_hc), vec![1.0, 2.0]);
}

#[test]
fn worker_send_result_with_error_payload() {
    let w = make_worker();
    let result = ResultMsg {
        req_id: 1,
        ok: false,
        error: Some("kaboom".to_string()),
        output_hc: tensor(&[], &[0]),
        output_logits: tensor(&[], &[0]),
    };
    let mut bytes = Vec::new();
    w.send_result(&result, &mut bytes).unwrap();
    let mut cur = ByteReader::new(&bytes);
    let frame = Frame::read_from(&mut cur).unwrap();
    assert_eq!(frame.msg_type, msg::RESULT);
    let r2 = ResultMsg::decode(&frame.payload).unwrap();
    assert!(!r2.ok);
    assert_eq!(r2.error.as_deref(), Some("kaboom"));
}

#[test]
fn worker_read_work_rejects_wrong_msg_type() {
    let w = make_worker();
    let hello = Hello::worker(1, 1);
    let bytes = Frame::new(msg::HELLO, hello.encode()).unwrap().encode();
    let err = w.read_work(&mut ByteReader::new(&bytes)).unwrap_err();
    assert_eq!(err.kind, Ds4ErrorKind::InvalidArgument);
}

#[test]
fn worker_new_picks_up_layer_slice_from_opts() {
    let o = Ds4DistributedOptions {
        role: Ds4DistributedRole::Worker,
        layers: slice(4, 16, true),
        activation_bits: 0,
    };
    let w = Worker::new(o, 32, 4096);
    assert_eq!(w.layer_start, 4);
    assert_eq!(w.layer_end, 16);
    assert!(w.has_output);
    assert_eq!(w.activation_bits, 32);
}

#[test]
fn worker_refuses_what_it_cannot_run() {
    let w = make_worker();
    let mut work = work_of(1, vec![1], &[1.0; 4]);
    work.layer_end = 33;
    let err = w.layer_input(&work).unwrap_err();
    assert_eq!(
        err.message,
        "worker slice 0..32 does not cover requested 0..33"
    );
    let mut work = work_of(1, vec![1], &[1.0; 4]);
    work.input_hc.dtype = DType::U8;
    let err = w.layer_input(&work).unwrap_err();
    assert_eq!(err.message, "worker input_hc must be F32");
    let headless = Worker::new(worker_opts(), 32, 0);
    let err = headless
        .head_request(&work_of(1, vec![1], &[1.0; 4]))
        .unwrap_err();
    assert_eq!(
        err.message,
        "worker has output head but head_elements is zero"
    );
}

#[test]
fn worker_without_a_head_answers_without_logits() {
    let mut o = worker_opts();
    o.layers.has_output = false;
    let w = Worker::new(o, 32, 4096);
    let work = work_of(1, vec![1], &[1.0; 4]);
    assert!(w.head_request(&work).unwrap().is_none());
    let (hc, logits) = w
        .dispatch(&work, Ok(bits(&[2.0; 4])), Ok(bits(&[9.0])))
        .unwrap();
    assert_eq!(as_f32(&hc), vec![2.0; 4]);
    assert!(as_f32(&logits).is_empty());
}

#[test]
fn token_count_is_the_outer_dimension() {
    assert_eq!(tensor_token_count(&tensor(&[1.0; 6], &[3, 2])), 3);
}

#[test]
fn each_read_moves_past_its_frame() {
    let w = make_worker();
    let mut received = Vec::new();
    for id in [7, 8] {
        let work = work_of(id, vec![1], &[1.0; 4]);
        Frame::new(msg::WORK, work.encode())
            .unwrap()
            .write_to(&mut received)
            .unwrap();
    }
    let mut reader = ByteReader::new(&received);
    assert_eq!(w.read_work(&mut reader).unwrap().req_id, 7);
    assert_eq!(w.read_work(&mut reader).unwrap().req_id, 8);
    assert!(w.read_work(&mut reader).is_err());

    let coord = Coordinator::new(coordinator_opts());
    let mut back = Vec::new();
    for id in [7, 8] {
        let failed = Err(Ds4Error::new(
            Ds4ErrorKind::Backend,
            format!("request {id}"),
        ));
        w.send_result(&w.answer(id, &failed), &mut back).unwrap();
    }
    let mut reader = ByteReader::new(&back);
    assert_eq!(
        coord.await_result(7, &mut reader).unwrap_err().message,
        "request 7"
    );
    assert_eq!(
        coord.await_result(8, &mut reader).unwrap_err().message,
        "request 8"
    );
}
