//! Coordinator: it routes layer slices to workers, and checks what they answer.
//!
//! The streams are the caller's. What is to be sent is handed out as bytes, and what came in is
//! handed over as bytes.

use std::collections::HashMap;

use vstd::prelude::*;
use vstd::string::StringExecFns;

use super::msg;
use super::protocol::{
    bad_dtype, bad_role, decode_payload, frame_bytes, frame_result, frame_work, is_error_text,
    is_too_large, parse_hello, parse_result, read_frame, result_bytes, wire_text, work_bytes,
    Decoded, Frame, FrameRead, FrameView, Hello, Parsed, ResultMsg, WireError, Work, WorkView,
    MAGIC, MAX_FRAME_PAYLOAD, WIRE_VERSION,
};
use super::{DEFAULT_ACTIVATION_BITS, SNAPSHOT_CHUNK_BYTES};
use crate::le::{is_io_error, ByteReader};
use crate::slices::copy_words;
use crate::tensor::Tensor;
use crate::text::{dec, push_dec};
use crate::types::{
    Ds4DistributedOptions, Ds4DistributedRole, Ds4Error, Ds4ErrorKind, Ds4LayerSlice, Ds4Result,
};

verus! {

broadcast use vstd::std_specs::hash::group_hash_axioms;

/// A connected worker, and the layers that it runs.
#[derive(Debug, Clone, Copy, PartialEq, Eq, Structural)]
pub struct WorkerConn {
    pub worker_id: u32,
    pub layer_start: usize,
    pub layer_end: usize,
    pub has_output: bool,
    pub activation_bits: u8,
}

impl WorkerConn {
    /// The worker runs all of these layers.
    pub open spec fn runs(self, layer_start: usize, layer_end: usize) -> bool {
        self.layer_start <= layer_start && layer_end <= self.layer_end
    }
}

/// A range of layers.
#[derive(Debug, Clone, Copy, PartialEq, Eq, Structural)]
pub struct LayerSlice {
    pub layer_start: usize,
    pub layer_end: usize,
    pub has_output: bool,
}

impl LayerSlice {
    /// `true` if the layer lies in the range.
    pub fn covers(&self, layer: usize) -> (r: bool)
        ensures
            r == (self.layer_start <= layer < self.layer_end),
    {
        layer >= self.layer_start && layer < self.layer_end
    }

    /// The range of a slice from the options.
    pub fn from_ds4(s: &Ds4LayerSlice) -> (r: Self)
        ensures
            r == (LayerSlice {
                layer_start: s.start,
                layer_end: s.end,
                has_output: s.has_output,
            }),
    {
        LayerSlice { layer_start: s.start, layer_end: s.end, has_output: s.has_output }
    }
}

/// Coordinator state.
pub struct Coordinator {
    pub workers: HashMap<u32, WorkerConn>,
    pub layers: Vec<LayerSlice>,
    pub activation_bits: u8,
    pub snapshot_chunk_bytes: usize,
    pub options: Ds4DistributedOptions,
    /// Goes with every WORK, and comes back with its RESULT. Never 0.
    pub req_id: u64,
}

/// What a coordinator holds.
pub struct CoordinatorView {
    pub workers: Map<u32, WorkerConn>,
    pub layers: Seq<LayerSlice>,
    pub activation_bits: u8,
    pub snapshot_chunk_bytes: usize,
    pub options: Ds4DistributedOptions,
    pub req_id: u64,
}

impl View for Coordinator {
    type V = CoordinatorView;

    open spec fn view(&self) -> CoordinatorView {
        CoordinatorView {
            workers: self.workers@,
            layers: self.layers@,
            activation_bits: self.activation_bits,
            snapshot_chunk_bytes: self.snapshot_chunk_bytes,
            options: self.options,
            req_id: self.req_id,
        }
    }
}

/// The request id after this one.
pub open spec fn req_id_after(id: u64) -> u64 {
    if id < u64::MAX {
        (id + 1) as u64
    } else {
        1
    }
}

/// The request id that comes `n` requests after this one.
pub open spec fn req_id_after_n(id: u64, n: nat) -> u64
    decreases n,
{
    if n == 0 {
        id
    } else {
        req_id_after(req_id_after_n(id, (n - 1) as nat))
    }
}

impl CoordinatorView {
    /// Each worker is known under its id, and the next request id is not 0.
    pub open spec fn wf(self) -> bool {
        &&& self.req_id != 0
        &&& self.workers.dom().finite()
        &&& forall|id: u32| #[trigger]
            self.workers.contains_key(id) ==> self.workers[id].worker_id == id
    }

    /// Some worker runs all of these layers.
    pub open spec fn routable(self, layer_start: usize, layer_end: usize) -> bool {
        exists|id: u32| #[trigger]
            self.workers.contains_key(id) && self.workers[id].runs(layer_start, layer_end)
    }

    /// The coordinator with a worker that said this HELLO.
    pub open spec fn with_worker(self, worker_id: u32, hello: Hello) -> CoordinatorView {
        CoordinatorView {
            workers: self.workers.insert(
                worker_id,
                WorkerConn {
                    worker_id,
                    layer_start: 0,
                    layer_end: hello.n_layers as usize,
                    has_output: true,
                    activation_bits: hello.activation_bits,
                },
            ),
            layers: self.layers.push(
                LayerSlice {
                    layer_start: 0,
                    layer_end: hello.n_layers as usize,
                    has_output: true,
                },
            ),
            ..self
        }
    }
}

/// The error for a worker that is not connected.
pub open spec fn no_worker(e: Ds4Error, worker_id: u32) -> bool {
    e.is(Ds4ErrorKind::InvalidArgument, "no worker "@ + dec(worker_id as nat))
}

/// The error for layers that no worker runs.
pub open spec fn no_route(e: Ds4Error, layer_start: usize, layer_end: usize) -> bool {
    e.is(
        Ds4ErrorKind::InvalidArgument,
        "no worker covers layer slice "@ + dec(layer_start as nat) + ".."@ + dec(layer_end as nat),
    )
}

/// The error for a frame that could not be read.
pub open spec fn frame_failed(e: Ds4Error, prefix: Seq<char>, w: WireError) -> bool {
    exists|text: Seq<char>| #[trigger]
        wire_text(w, text) && e.is(Ds4ErrorKind::Io, prefix + text)
}

/// The outcome of reading a frame of one message type, short of its payload.
pub open spec fn frame_outcome(
    e: Ds4Error,
    read: FrameRead,
    prefix: Seq<char>,
) -> bool {
    match read {
        FrameRead::Done(_, _) => false,
        FrameRead::Short => exists|w: WireError| w is Io && #[trigger] frame_failed(e, prefix, w),
        FrameRead::BadMagic(got) => frame_failed(
            e,
            prefix,
            WireError::BadMagic { got, expected: MAGIC },
        ),
        FrameRead::TooLarge(got) => frame_failed(
            e,
            prefix,
            WireError::PayloadTooLarge { got: got as usize, max: MAX_FRAME_PAYLOAD },
        ),
    }
}

/// An error that reports another one.
pub open spec fn reports(e: Ds4Error, kind: Ds4ErrorKind, prefix: Seq<char>, inner: Ds4Error) -> bool {
    e.is(kind, prefix + inner.message@)
}

/// The error for a payload with an unknown element type.
pub open spec fn tag_failed(e: Ds4Error, tag: u8, prefix: Seq<char>) -> bool {
    exists|i: Ds4Error| #[trigger]
        bad_dtype(i, tag) && reports(e, Ds4ErrorKind::Backend, prefix, i)
}

/// The error for a payload that ends too early.
pub open spec fn short_failed(e: Ds4Error, prefix: Seq<char>) -> bool {
    exists|i: Ds4Error| #[trigger]
        is_io_error(i) && reports(e, Ds4ErrorKind::Backend, prefix, i)
}

/// What `received` means as the answer to request `req_id`.
pub open spec fn is_answer(r: Ds4Result<ResultMsg>, received: FrameRead, req_id: u64) -> bool {
    match received {
        FrameRead::Done(f, _) => if f.msg_type != msg::RESULT {
            r matches Err(e) && e.is(
                Ds4ErrorKind::InvalidArgument,
                "expected RESULT, got msg_type="@ + dec(f.msg_type as nat),
            )
        } else {
            match parse_result(f.payload) {
                Parsed::Done(v, _) => if v.req_id != req_id {
                    r matches Err(e) && e.is(
                        Ds4ErrorKind::Backend,
                        "RESULT req_id mismatch: sent "@ + dec(req_id as nat) + ", got "@ + dec(
                            v.req_id as nat,
                        ),
                    )
                } else if !v.ok {
                    r matches Err(e) && e.kind == Ds4ErrorKind::Backend && if v.error is Some {
                        is_error_text(Some(e.message), v.error)
                    } else {
                        e.message@ == "unknown error"@
                    }
                } else {
                    &&& r matches Ok(x)
                    &&& x.req_id == req_id
                    &&& x.ok
                    &&& is_error_text(x.error, v.error)
                    &&& x.output_hc@ == v.output_hc
                    &&& x.output_logits@ == v.output_logits
                },
                Parsed::BadTag(b) => r matches Err(e) && tag_failed(e, b, "decode RESULT: "@),
                _ => r matches Err(e) && short_failed(e, "decode RESULT: "@),
            }
        },
        other => r matches Err(e) && frame_outcome(e, other, "read RESULT: "@),
    }
}

/// Request ids never become 0.
pub proof fn law_req_id_not_zero(id: u64, n: nat)
    requires
        id != 0,
    ensures
        req_id_after_n(id, n) != 0,
    decreases n,
{
    if n > 0 {
        law_req_id_not_zero(id, (n - 1) as nat);
    }
}

/// Until the ids wrap around, the id that comes `n` requests later is larger by `n`: no two
/// requests share one.
pub proof fn law_req_ids_distinct(id: u64, n: nat)
    requires
        id + n <= u64::MAX,
    ensures
        req_id_after_n(id, n) == id + n,
    decreases n,
{
    if n > 0 {
        law_req_ids_distinct(id, (n - 1) as nat);
    }
}

/// A worker that was accepted can be routed to, for any part of the layers that it said it has.
pub proof fn law_accepted_worker_routes(
    c: CoordinatorView,
    worker_id: u32,
    hello: Hello,
    layer_start: usize,
    layer_end: usize,
)
    requires
        c.wf(),
        layer_end <= hello.n_layers,
    ensures
        c.with_worker(worker_id, hello).wf(),
        c.with_worker(worker_id, hello).routable(layer_start, layer_end),
{
    let d = c.with_worker(worker_id, hello);
    assert(d.workers.contains_key(worker_id));
}

/// The error for something that could not be read from a frame.
pub(crate) fn frame_error(prefix: &str, w: &WireError) -> (e: Ds4Error)
    ensures
        frame_failed(e, prefix@, *w),
{
    let text: String = w.message();
    let mut m: String = String::from_str(prefix);
    m.append(text.as_str());
    let e = Ds4Error::new(Ds4ErrorKind::Io, m);
    assert(wire_text(*w, text@) && e.is(Ds4ErrorKind::Io, prefix@ + text@));
    e
}

/// The error that reports another one.
pub(crate) fn reported(kind: Ds4ErrorKind, prefix: &str, inner: &Ds4Error) -> (e: Ds4Error)
    ensures
        reports(e, kind, prefix@, *inner),
{
    let mut m: String = String::from_str(prefix);
    m.append(inner.message.as_str());
    Ds4Error::new(kind, m)
}

impl Coordinator {
    /// A coordinator without workers. An activation width of 0 stands for the default.
    pub fn new(opts: Ds4DistributedOptions) -> (c: Self)
        requires
            opts.role == Ds4DistributedRole::Coordinator,
        ensures
            c@.wf(),
            c@ == (CoordinatorView {
                workers: Map::empty(),
                layers: Seq::empty(),
                activation_bits: if opts.activation_bits == 0 {
                    DEFAULT_ACTIVATION_BITS
                } else {
                    opts.activation_bits
                },
                snapshot_chunk_bytes: SNAPSHOT_CHUNK_BYTES,
                options: opts,
                req_id: 1,
            }),
    {
        Coordinator {
            workers: HashMap::new(),
            layers: Vec::new(),
            activation_bits: if opts.activation_bits == 0 {
                DEFAULT_ACTIVATION_BITS
            } else {
                opts.activation_bits
            },
            snapshot_chunk_bytes: SNAPSHOT_CHUNK_BYTES,
            options: opts,
            req_id: 1,
        }
    }

    /// Takes the next request id. After the largest one they start over at 1.
    pub fn next_req_id(&mut self) -> (id: u64)
        requires
            old(self)@.wf(),
        ensures
            id == old(self)@.req_id,
            final(self)@ == (CoordinatorView { req_id: req_id_after(id), ..old(self)@ }),
            final(self)@.wf(),
    {
        let id: u64 = self.req_id;
        self.req_id = if id < u64::MAX {
            id + 1
        } else {
            1
        };
        id
    }

    /// Registers a worker by the HELLO that it sent. A frame that cannot be read, another message,
    /// a malformed HELLO and another wire version are refused, and leave the coordinator as it was.
    pub fn accept_worker(&mut self, worker_id: u32, received: &mut ByteReader) -> (r: Result<
        Hello,
        WireError,
    >)
        requires
            old(self)@.wf(),
            old(received).wf(),
        ensures
            final(self)@.wf(),
            final(received).wf(),
            final(received).bytes == old(received).bytes,
            r is Err ==> final(self)@ == old(self)@,
            match read_frame(old(received).bytes@, old(received).pos as int) {
                FrameRead::Done(f, next) => final(received).pos == next && if f.msg_type
                    != msg::HELLO {
                    r matches Err(e) && e == WireError::BadMsgType(f.msg_type)
                } else {
                    match parse_hello(f.payload) {
                        Parsed::Done(h, _) => if h.wire_version != WIRE_VERSION {
                            r matches Err(e) && e == WireError::BadVersion(h.wire_version)
                        } else {
                            &&& r == Ok::<Hello, WireError>(h)
                            &&& final(self)@ == old(self)@.with_worker(worker_id, h)
                        },
                        Parsed::BadTag(b) => {
                            &&& r matches Err(WireError::Domain(text))
                            &&& exists|i: Ds4Error| #[trigger] bad_role(i, b) && i.message@ == text@
                        },
                        _ => {
                            &&& r matches Err(WireError::Domain(text))
                            &&& text@ == "HELLO payload too short: "@ + dec(f.payload.len())
                                + " bytes (need 14)"@
                        },
                    }
                },
                FrameRead::Short => r matches Err(WireError::Io(_)),
                FrameRead::BadMagic(got) => r matches Err(e) && e == (WireError::BadMagic {
                    got,
                    expected: MAGIC,
                }),
                FrameRead::TooLarge(got) => r matches Err(e) && e == (WireError::PayloadTooLarge {
                    got: got as usize,
                    max: MAX_FRAME_PAYLOAD,
                }),
            },
    {
        let frame = Frame::read_from(received)?;
        if frame.msg_type != msg::HELLO {
            return Err(WireError::BadMsgType(frame.msg_type));
        }
        let hello: Hello = match decode_payload(frame.msg_type, frame.payload.as_slice()) {
            Ok(Decoded::Hello(h)) => h,
            Ok(_) => return Err(WireError::BadMsgType(frame.msg_type)),
            Err(e) => return Err(WireError::Domain(e.message)),
        };
        if hello.wire_version != WIRE_VERSION {
            return Err(WireError::BadVersion(hello.wire_version));
        }
        let slice = LayerSlice {
            layer_start: 0,
            layer_end: hello.n_layers as usize,
            has_output: true,
        };
        self.layers.push(slice);
        self.workers.insert(
            worker_id,
            WorkerConn {
                worker_id,
                layer_start: slice.layer_start,
                layer_end: slice.layer_end,
                has_output: slice.has_output,
                activation_bits: hello.activation_bits,
            },
        );
        Ok(hello)
    }

    /// A worker that runs these layers.
    pub fn route_layer_slice(&self, layer_start: usize, layer_end: usize) -> (r: Option<u32>)
        requires
            self@.wf(),
        ensures
            match r {
                Some(id) => self@.workers.contains_key(id) && self@.workers[id].runs(
                    layer_start,
                    layer_end,
                ),
                None => !self@.routable(layer_start, layer_end),
            },
    {
        let mut found: Option<u32> = None;
        for w in it: self.workers.values()
            invariant
                self@.wf(),
                it.seq().unref().to_set() == self.workers@.values(),
                match found {
                    Some(id) => self@.workers.contains_key(id) && self@.workers[id].runs(
                        layer_start,
                        layer_end,
                    ),
                    None => forall|j: int|
                        0 <= j < it.index() ==> !(#[trigger] it.seq()[j]).runs(
                            layer_start,
                            layer_end,
                        ),
                },
        {
            proof {
                let all = it.seq().unref();
                assert(all[it.index()] == *w);
                assert(all.to_set().contains(*w));
            }
            if found.is_none() && w.layer_start <= layer_start && w.layer_end >= layer_end {
                found = Some(w.worker_id);
            }
        }
        proof {
            if found is None && self@.routable(layer_start, layer_end) {
                let id = choose|id: u32| #[trigger]
                    self@.workers.contains_key(id) && self@.workers[id].runs(
                        layer_start,
                        layer_end,
                    );
                assert(self.workers@.values().contains(self.workers@[id]));
            }
        }
        found
    }

    /// Picks the worker for a layer slice, and makes the WORK to send to it.
    pub fn dispatch_layer_slice(
        &mut self,
        tokens: &[u32],
        pos0: usize,
        layer_start: usize,
        layer_end: usize,
        input_hc: &Tensor,
    ) -> (r: Ds4Result<(u32, Work)>)
        requires
            old(self)@.wf(),
        ensures
            final(self)@.wf(),
            match r {
                Ok((id, work)) => {
                    &&& old(self)@.workers.contains_key(id)
                    &&& old(self)@.workers[id].runs(layer_start, layer_end)
                    &&& work@ == (WorkView {
                        req_id: old(self)@.req_id,
                        tokens: tokens@,
                        pos0,
                        layer_start,
                        layer_end,
                        input_hc: input_hc@,
                    })
                    &&& final(self)@ == (CoordinatorView {
                        req_id: req_id_after(old(self)@.req_id),
                        ..old(self)@
                    })
                },
                Err(e) => {
                    &&& !old(self)@.routable(layer_start, layer_end)
                    &&& no_route(e, layer_start, layer_end)
                    &&& final(self)@ == old(self)@
                },
            },
    {
        let worker_id: u32 = match self.route_layer_slice(layer_start, layer_end) {
            Some(id) => id,
            None => {
                let mut m: String = String::from_str("no worker covers layer slice ");
                push_dec(&mut m, layer_start as u64);
                m.append("..");
                push_dec(&mut m, layer_end as u64);
                return Err(Ds4Error::new(Ds4ErrorKind::InvalidArgument, m));
            },
        };
        let copied: Vec<u32> = copy_words(tokens, 0, tokens.len());
        assert(copied@ =~= tokens@);
        let req_id: u64 = self.next_req_id();
        let work = Work {
            req_id,
            tokens: copied,
            pos0,
            layer_start,
            layer_end,
            input_hc: input_hc.duplicate(),
        };
        Ok((worker_id, work))
    }

    fn check_worker(&self, worker_id: u32) -> (r: Ds4Result<()>)
        ensures
            match r {
                Ok(()) => self@.workers.contains_key(worker_id),
                Err(e) => !self@.workers.contains_key(worker_id) && no_worker(e, worker_id),
            },
    {
        if self.workers.get(&worker_id).is_none() {
            let mut m: String = String::from_str("no worker ");
            push_dec(&mut m, worker_id as u64);
            return Err(Ds4Error::new(Ds4ErrorKind::InvalidArgument, m));
        }
        Ok(())
    }

    /// Appends the WORK frame for a worker. A WORK that is too large and an unknown worker are
    /// refused.
    pub fn send_work(&self, worker_id: u32, work: &Work, out: &mut Vec<u8>) -> (r: Ds4Result<()>)
        ensures
            match r {
                Ok(()) => {
                    &&& work_bytes(work@).len() <= MAX_FRAME_PAYLOAD
                    &&& self@.workers.contains_key(worker_id)
                    &&& final(out)@ == old(out)@ + frame_bytes(
                        FrameView {
                            magic: MAGIC,
                            msg_type: msg::WORK,
                            payload: work_bytes(work@),
                        },
                    )
                },
                Err(e) => {
                    &&& final(out)@ == old(out)@
                    &&& if work_bytes(work@).len() > MAX_FRAME_PAYLOAD {
                        is_too_large(
                            e,
                            "Frame::new: payload too large: "@,
                            work_bytes(work@).len(),
                            MAX_FRAME_PAYLOAD as nat,
                        )
                    } else {
                        !self@.workers.contains_key(worker_id) && no_worker(e, worker_id)
                    }
                },
            },
    {
        let frame = frame_work(work)?;
        self.check_worker(worker_id)?;
        match frame.write_to(out) {
            Ok(()) => Ok(()),
            Err(e) => Err(frame_error("write WORK: ", &e)),
        }
    }

    /// Reads the RESULT of a request from what its worker sent back.
    pub fn await_result(&self, req_id: u64, received: &mut ByteReader) -> (r: Ds4Result<ResultMsg>)
        requires
            old(received).wf(),
        ensures
            final(received).wf(),
            final(received).bytes == old(received).bytes,
            is_answer(
                r,
                read_frame(old(received).bytes@, old(received).pos as int),
                req_id,
            ),
            read_frame(old(received).bytes@, old(received).pos as int) matches FrameRead::Done(
                _,
                next,
            ) ==> final(received).pos == next,
    {
        let resp = match Frame::read_from(received) {
            Ok(f) => f,
            Err(w) => {
                let e = frame_error("read RESULT: ", &w);
                return Err(e);
            },
        };
        if resp.msg_type != msg::RESULT {
            let mut m: String = String::from_str("expected RESULT, got msg_type=");
            push_dec(&mut m, resp.msg_type as u64);
            return Err(Ds4Error::new(Ds4ErrorKind::InvalidArgument, m));
        }
        match decode_payload(resp.msg_type, resp.payload.as_slice()) {
            Ok(Decoded::Result(r)) => {
                if r.req_id != req_id {
                    let mut m: String = String::from_str("RESULT req_id mismatch: sent ");
                    push_dec(&mut m, req_id);
                    m.append(", got ");
                    push_dec(&mut m, r.req_id);
                    return Err(Ds4Error::new(Ds4ErrorKind::Backend, m));
                }
                if !r.ok {
                    let text: String = match r.error {
                        Some(t) => t,
                        None => String::from_str("unknown error"),
                    };
                    return Err(Ds4Error::new(Ds4ErrorKind::Backend, text));
                }
                Ok(r)
            },
            Ok(_) => Err(
                Ds4Error::new(
                    Ds4ErrorKind::Backend,
                    String::from_str("expected RESULT payload, got something else"),
                ),
            ),
            Err(i) => {
                let e = reported(Ds4ErrorKind::Backend, "decode RESULT: ", &i);
                Err(e)
            },
        }
    }

    /// Appends a RESULT frame for a worker's stream. A RESULT that is too large and an unknown
    /// worker are refused.
    pub fn write_result(&self, worker_id: u32, result: &ResultMsg, out: &mut Vec<u8>) -> (r:
        Ds4Result<()>)
        ensures
            match r {
                Ok(()) => {
                    &&& result_bytes(result@).len() <= MAX_FRAME_PAYLOAD
                    &&& self@.workers.contains_key(worker_id)
                    &&& final(out)@ == old(out)@ + frame_bytes(
                        FrameView {
                            magic: MAGIC,
                            msg_type: msg::RESULT,
                            payload: result_bytes(result@),
                        },
                    )
                },
                Err(e) => {
                    &&& final(out)@ == old(out)@
                    &&& if result_bytes(result@).len() > MAX_FRAME_PAYLOAD {
                        is_too_large(
                            e,
                            "Frame::new: payload too large: "@,
                            result_bytes(result@).len(),
                            MAX_FRAME_PAYLOAD as nat,
                        )
                    } else {
                        !self@.workers.contains_key(worker_id) && no_worker(e, worker_id)
                    }
                },
            },
    {
        let frame = frame_result(result)?;
        self.check_worker(worker_id)?;
        match frame.write_to(out) {
            Ok(()) => Ok(()),
            Err(e) => Err(frame_error("write RESULT: ", &e)),
        }
    }

    /// Number of registered workers.
    pub fn n_workers(&self) -> (n: usize)
        ensures
            n == self@.workers.len(),
    {
        self.workers.len()
    }

    /// A registered worker.
    pub fn worker(&self, worker_id: u32) -> (r: Option<WorkerConn>)
        ensures
            match r {
                Some(w) => self@.workers.contains_key(worker_id) && w == self@.workers[worker_id],
                None => !self@.workers.contains_key(worker_id),
            },
    {
        match self.workers.get(&worker_id) {
            Some(w) => Some(*w),
            None => None,
        }
    }
}

} // verus!
