//! Worker: it says HELLO, reads WORK and answers with RESULT.
//!
//! The stream and the model are the caller's: a worker says what the model is to be given, and
//! takes what it came to.

use vstd::prelude::*;
use vstd::string::StringExecFns;

use super::coordinator::{
    frame_error, frame_outcome, is_answer, reported, short_failed, tag_failed,
};
use super::msg;
use super::protocol::{
    decode_payload, frame_bytes, frame_hello, frame_result, hello_bytes, is_error_text,
    law_frame_roundtrip, law_hello_roundtrip, law_result_roundtrip, parse_hello, parse_work,
    read_frame, result_bytes, wire_tensor, Decoded, Frame, FrameRead, FrameView, Hello, Parsed,
    ResultMsg, ResultView, Work, MAGIC, MAX_FRAME_PAYLOAD, NO_ERROR_LEN, WIRE_VERSION,
};
use super::DEFAULT_ACTIVATION_BITS;
use crate::le::{le_words, words_of, ByteReader};
use crate::tensor::{DType, Shape, Tensor, TensorView};
use crate::text::{dec, push_dec};
use crate::types::{Ds4DistributedOptions, Ds4DistributedRole, Ds4Error, Ds4ErrorKind, Ds4Result};

verus! {

/// A worker.
#[derive(Debug, Clone, Copy, PartialEq, Eq, Structural)]
pub struct Worker {
    pub layer_start: usize,
    pub layer_end: usize,
    pub has_output: bool,
    pub activation_bits: u8,
    pub n_layers: u32,
    pub head_elements: u32,
}

/// What the output head is to be given.
#[derive(Debug, Clone, Copy, PartialEq, Eq, Structural)]
pub struct HeadRequest {
    pub n_tokens: usize,
    pub head_elements: usize,
}

/// What a dispatched WORK gives: the hidden state and the logits.
pub struct DispatchView {
    pub output_hc: TensorView,
    pub output_logits: TensorView,
}

/// Number of tokens in a hidden state: none if it is empty or has no dimension, one if it is a
/// row, otherwise its outermost dimension.
pub open spec fn token_count(dims: Seq<usize>) -> usize {
    if dims.len() == 0 || dims.contains(0) {
        0
    } else if dims.len() == 1 {
        1
    } else {
        dims[0]
    }
}

/// The empty tensor.
pub open spec fn empty_tensor() -> TensorView {
    TensorView { dtype: DType::F32, dims: seq![0usize], data: Seq::empty() }
}

/// The error for layers outside the worker's slice.
pub open spec fn not_covered(e: Ds4Error, w: Worker, layer_start: usize, layer_end: usize) -> bool {
    e.is(
        Ds4ErrorKind::InvalidArgument,
        "worker slice "@ + dec(w.layer_start as nat) + ".."@ + dec(w.layer_end as nat)
            + " does not cover requested "@ + dec(layer_start as nat) + ".."@ + dec(
            layer_end as nat,
        ),
    )
}

/// The error for a hidden state of another element type.
pub open spec fn input_not_f32(e: Ds4Error) -> bool {
    e.is(Ds4ErrorKind::InvalidArgument, "worker input_hc must be F32"@)
}

/// The error for an output head without elements.
pub open spec fn no_head(e: Ds4Error) -> bool {
    e.is(
        Ds4ErrorKind::InvalidArgument,
        "worker has output head but head_elements is zero"@,
    )
}

impl Worker {
    /// The worker runs all of these layers.
    pub open spec fn runs(self, layer_start: usize, layer_end: usize) -> bool {
        self.layer_start <= layer_start && layer_end <= self.layer_end
    }

    /// The hidden state is for an output head without elements.
    pub open spec fn lacks_head(self, dims: Seq<usize>) -> bool {
        self.has_output && token_count(dims) != 0 && self.head_elements == 0
    }
}

/// The outcome of reading a WORK from what came in.
pub open spec fn is_work_read(r: Ds4Result<Work>, received: FrameRead) -> bool {
    match received {
        FrameRead::Done(f, _) => if f.msg_type != msg::WORK {
            r matches Err(e) && e.is(
                Ds4ErrorKind::InvalidArgument,
                "expected WORK, got msg_type="@ + dec(f.msg_type as nat),
            )
        } else {
            match parse_work(f.payload) {
                Parsed::Done(w, _) => r matches Ok(x) && x@ == w,
                Parsed::BadTag(b) => r matches Err(e) && tag_failed(e, b, "decode WORK: "@),
                _ => r matches Err(e) && short_failed(e, "decode WORK: "@),
            }
        },
        other => r matches Err(e) && frame_outcome(e, other, "read frame: "@),
    }
}

// ---- Laws ----

/// What a worker of this version says as HELLO, a coordinator reads as it was said.
pub proof fn law_hello_arrives(h: Hello)
    ensures
        ({
            let f = FrameView { magic: MAGIC, msg_type: msg::HELLO, payload: hello_bytes(h) };
            &&& read_frame(frame_bytes(f), 0) == FrameRead::Done(f, frame_bytes(f).len() as int)
            &&& parse_hello(f.payload) == Parsed::Done(h, f.payload.len() as int)
        }),
{
    let f = FrameView { magic: MAGIC, msg_type: msg::HELLO, payload: hello_bytes(h) };
    law_hello_roundtrip(h);
    law_frame_roundtrip(Seq::empty(), f, Seq::empty());
    assert(Seq::<u8>::empty() + frame_bytes(f) + Seq::<u8>::empty() =~= frame_bytes(f));
}

/// The answer to a request reaches the coordinator that waits for it: a success as a success with
/// the same tensors, a failure as an error with its message.
pub proof fn law_answer_arrives(r: Ds4Result<ResultMsg>, v: ResultView)
    requires
        v.error matches Some(b) ==> b.len() < NO_ERROR_LEN,
        wire_tensor(v.output_hc),
        wire_tensor(v.output_logits),
        result_bytes(v).len() <= MAX_FRAME_PAYLOAD,
        is_answer(
            r,
            read_frame(
                frame_bytes(
                    FrameView { magic: MAGIC, msg_type: msg::RESULT, payload: result_bytes(v) },
                ),
                0,
            ),
            v.req_id,
        ),
    ensures
        v.ok ==> {
            &&& r matches Ok(x)
            &&& x.output_hc@ == v.output_hc
            &&& x.output_logits@ == v.output_logits
        },
        !v.ok ==> (r matches Err(e) && e.kind == Ds4ErrorKind::Backend && (v.error is Some
            ==> is_error_text(Some(e.message), v.error))),
{
    let f = FrameView { magic: MAGIC, msg_type: msg::RESULT, payload: result_bytes(v) };
    law_frame_roundtrip(Seq::empty(), f, Seq::empty());
    law_result_roundtrip(v);
    assert(Seq::<u8>::empty() + frame_bytes(f) + Seq::<u8>::empty() =~= frame_bytes(f));
}

// ---- Operations ----

fn has_zero(dims: &[usize]) -> (r: bool)
    ensures
        r == dims@.contains(0),
{
    let mut i: usize = 0;
    while i < dims.len()
        invariant
            i <= dims@.len(),
            forall|j: int| 0 <= j < i ==> dims@[j] != 0,
        decreases dims@.len() - i,
    {
        if dims[i] == 0 {
            return true;
        }
        i += 1;
    }
    false
}

/// Number of tokens in a hidden state.
pub fn tensor_token_count(t: &Tensor) -> (n: usize)
    ensures
        n == token_count(t@.dims),
{
    let dims: &[usize] = t.shape.dims();
    if dims.len() == 0 || has_zero(dims) {
        0
    } else if dims.len() == 1 {
        1
    } else {
        dims[0]
    }
}

fn no_tensor() -> (t: Tensor)
    ensures
        t@ == empty_tensor(),
{
    let none: Vec<u32> = Vec::new();
    let mut dims: Vec<usize> = Vec::new();
    dims.push(0);
    let t = Tensor::from_f32_bits(none.as_slice(), Shape::new(dims));
    assert(t@.dims =~= seq![0usize]);
    assert(t@.data =~= Seq::<u8>::empty());
    t
}

impl Worker {
    /// A worker for the layers that the options name. An activation width of 0 stands for the
    /// default.
    pub fn new(opts: Ds4DistributedOptions, n_layers: u32, head_elements: u32) -> (w: Self)
        requires
            opts.role == Ds4DistributedRole::Worker,
        ensures
            w == (Worker {
                layer_start: opts.layers.start,
                layer_end: opts.layers.end,
                has_output: opts.layers.has_output,
                activation_bits: if opts.activation_bits == 0 {
                    32
                } else {
                    opts.activation_bits
                },
                n_layers,
                head_elements,
            }),
    {
        Worker {
            layer_start: opts.layers.start,
            layer_end: opts.layers.end,
            has_output: opts.layers.has_output,
            activation_bits: if opts.activation_bits == 0 {
                DEFAULT_ACTIVATION_BITS
            } else {
                opts.activation_bits
            },
            n_layers,
            head_elements,
        }
    }

    /// Appends the worker's HELLO frame.
    pub fn send_hello(&self, out: &mut Vec<u8>) -> (r: Ds4Result<()>)
        ensures
            r is Ok,
            final(out)@ == old(out)@ + frame_bytes(
                FrameView {
                    magic: MAGIC,
                    msg_type: msg::HELLO,
                    payload: hello_bytes(
                        Hello {
                            wire_version: WIRE_VERSION,
                            role: Ds4DistributedRole::Worker,
                            n_layers: self.n_layers,
                            head_elements: self.head_elements,
                            activation_bits: DEFAULT_ACTIVATION_BITS,
                        },
                    ),
                },
            ),
    {
        let hello = Hello::worker(self.n_layers, self.head_elements);
        self.send_hello_raw(&hello, out)
    }

    /// Appends the frame of any HELLO.
    pub fn send_hello_raw(&self, hello: &Hello, out: &mut Vec<u8>) -> (r: Ds4Result<()>)
        ensures
            r is Ok,
            final(out)@ == old(out)@ + frame_bytes(
                FrameView { magic: MAGIC, msg_type: msg::HELLO, payload: hello_bytes(*hello) },
            ),
    {
        let frame = match frame_hello(hello) {
            Ok(f) => f,
            Err(e) => return Err(reported(Ds4ErrorKind::Io, "frame_hello: ", &e)),
        };
        match frame.write_to(out) {
            Ok(()) => Ok(()),
            Err(e) => Err(frame_error("write HELLO: ", &e)),
        }
    }

    /// Reads a WORK from what the coordinator sent.
    pub fn read_work(&self, received: &mut ByteReader) -> (r: Ds4Result<Work>)
        requires
            old(received).wf(),
        ensures
            final(received).wf(),
            final(received).bytes == old(received).bytes,
            is_work_read(r, read_frame(old(received).bytes@, old(received).pos as int)),
            read_frame(old(received).bytes@, old(received).pos as int) matches FrameRead::Done(
                _,
                next,
            ) ==> final(received).pos == next,
    {
        let frame = match Frame::read_from(received) {
            Ok(f) => f,
            Err(w) => {
                let e = frame_error("read frame: ", &w);
                return Err(e);
            },
        };
        if frame.msg_type != msg::WORK {
            let mut m: String = String::from_str("expected WORK, got msg_type=");
            push_dec(&mut m, frame.msg_type as u64);
            return Err(Ds4Error::new(Ds4ErrorKind::InvalidArgument, m));
        }
        match decode_payload(frame.msg_type, frame.payload.as_slice()) {
            Ok(Decoded::Work(w)) => Ok(w),
            Ok(_) => Err(
                Ds4Error::new(
                    Ds4ErrorKind::Backend,
                    String::from_str("expected WORK payload, got something else"),
                ),
            ),
            Err(i) => Err(reported(Ds4ErrorKind::Backend, "decode WORK: ", &i)),
        }
    }

    /// Appends a RESULT frame. One that is too large is refused.
    pub fn send_result(&self, result: &ResultMsg, out: &mut Vec<u8>) -> (r: Ds4Result<()>)
        ensures
            match r {
                Ok(()) => {
                    &&& result_bytes(result@).len() <= MAX_FRAME_PAYLOAD
                    &&& final(out)@ == old(out)@ + frame_bytes(
                        FrameView {
                            magic: MAGIC,
                            msg_type: msg::RESULT,
                            payload: result_bytes(result@),
                        },
                    )
                },
                Err(e) => {
                    &&& result_bytes(result@).len() > MAX_FRAME_PAYLOAD
                    &&& e.is(
                        Ds4ErrorKind::Io,
                        "frame_result: "@ + ("Frame::new: payload too large: "@ + dec(
                            result_bytes(result@).len(),
                        ) + " > "@ + dec(MAX_FRAME_PAYLOAD as nat)),
                    )
                    &&& final(out)@ == old(out)@
                },
            },
    {
        let frame = match frame_result(result) {
            Ok(f) => f,
            Err(e) => return Err(reported(Ds4ErrorKind::Io, "frame_result: ", &e)),
        };
        match frame.write_to(out) {
            Ok(()) => Ok(()),
            Err(e) => Err(frame_error("write RESULT: ", &e)),
        }
    }

    /// The elements that the model is to be given for a WORK. Layers outside the worker's slice
    /// and a hidden state of another element type are refused.
    pub fn layer_input(&self, work: &Work) -> (r: Ds4Result<Vec<u32>>)
        ensures
            match r {
                Ok(v) => {
                    &&& self.runs(work.layer_start, work.layer_end)
                    &&& work@.input_hc.dtype == DType::F32
                    &&& v@ == words_of(work@.input_hc.data)
                },
                Err(e) => if !self.runs(work.layer_start, work.layer_end) {
                    not_covered(e, *self, work.layer_start, work.layer_end)
                } else {
                    work@.input_hc.dtype != DType::F32 && input_not_f32(e)
                },
            },
    {
        if work.layer_start < self.layer_start || self.layer_end < work.layer_end {
            let mut m: String = String::from_str("worker slice ");
            push_dec(&mut m, self.layer_start as u64);
            m.append("..");
            push_dec(&mut m, self.layer_end as u64);
            m.append(" does not cover requested ");
            push_dec(&mut m, work.layer_start as u64);
            m.append("..");
            push_dec(&mut m, work.layer_end as u64);
            return Err(Ds4Error::new(Ds4ErrorKind::InvalidArgument, m));
        }
        if work.input_hc.dtype != DType::F32 {
            return Err(
                Ds4Error::new(
                    Ds4ErrorKind::InvalidArgument,
                    String::from_str("worker input_hc must be F32"),
                ),
            );
        }
        Ok(work.input_hc.as_f32_bits())
    }

    /// What the output head is to be given for a WORK, if the worker has one. A head without
    /// elements is refused, unless there are no tokens either.
    pub fn head_request(&self, work: &Work) -> (r: Ds4Result<Option<HeadRequest>>)
        ensures
            match r {
                Ok(Some(h)) => {
                    &&& self.has_output
                    &&& !self.lacks_head(work@.input_hc.dims)
                    &&& h == (HeadRequest {
                        n_tokens: token_count(work@.input_hc.dims),
                        head_elements: self.head_elements as usize,
                    })
                },
                Ok(None) => !self.has_output,
                Err(e) => self.lacks_head(work@.input_hc.dims) && no_head(e),
            },
    {
        if !self.has_output {
            return Ok(None);
        }
        let n_tokens: usize = tensor_token_count(&work.input_hc);
        let head_elements: usize = self.head_elements as usize;
        if n_tokens != 0 && head_elements == 0 {
            return Err(
                Ds4Error::new(
                    Ds4ErrorKind::InvalidArgument,
                    String::from_str("worker has output head but head_elements is zero"),
                ),
            );
        }
        Ok(Some(HeadRequest { n_tokens, head_elements }))
    }

    /// What a WORK comes to, given what the layers and the output head came to. `layers` are the
    /// elements for the input of `layer_input`, and `head` those for `head_request`; each is looked
    /// at only where the steps before it succeeded and it is needed.
    pub fn dispatch(
        &self,
        work: &Work,
        layers: Ds4Result<Vec<u32>>,
        head: Ds4Result<Vec<u32>>,
    ) -> (r: Ds4Result<(Tensor, Tensor)>)
        ensures
            if !self.runs(work.layer_start, work.layer_end) {
                r matches Err(e) && not_covered(e, *self, work.layer_start, work.layer_end)
            } else if work@.input_hc.dtype != DType::F32 {
                r matches Err(e) && input_not_f32(e)
            } else {
                match layers {
                    Err(e) => r == Err::<(Tensor, Tensor), Ds4Error>(e),
                    Ok(hidden) => if self.lacks_head(work@.input_hc.dims) {
                        r matches Err(e) && no_head(e)
                    } else if !self.has_output {
                        &&& r matches Ok((hc, logits))
                        &&& hc@ == (TensorView {
                            dtype: DType::F32,
                            dims: work@.input_hc.dims,
                            data: le_words(hidden@),
                        })
                        &&& logits@ == empty_tensor()
                    } else {
                        match head {
                            Err(e) => r == Err::<(Tensor, Tensor), Ds4Error>(e),
                            Ok(values) => {
                                &&& r matches Ok((hc, logits))
                                &&& hc@ == (TensorView {
                                    dtype: DType::F32,
                                    dims: work@.input_hc.dims,
                                    data: le_words(hidden@),
                                })
                                &&& logits@ == (TensorView {
                                    dtype: DType::F32,
                                    dims: seq![
                                        token_count(work@.input_hc.dims),
                                        self.head_elements as usize,
                                    ],
                                    data: le_words(values@),
                                })
                            },
                        }
                    },
                }
            },
    {
        let _input: Vec<u32> = self.layer_input(work)?;
        let hidden: Vec<u32> = match layers {
            Ok(v) => v,
            Err(e) => return Err(e),
        };
        let dims: Vec<usize> = work.input_hc.shape.dims.clone();
        assert(dims@ =~= work@.input_hc.dims);
        let output_hc = Tensor::from_f32_bits(hidden.as_slice(), Shape::new(dims));
        match self.head_request(work)? {
            None => Ok((output_hc, no_tensor())),
            Some(h) => {
                let values: Vec<u32> = match head {
                    Ok(v) => v,
                    Err(e) => return Err(e),
                };
                let mut shape: Vec<usize> = Vec::new();
                shape.push(h.n_tokens);
                shape.push(h.head_elements);
                assert(shape@ =~= seq![
                    token_count(work@.input_hc.dims),
                    self.head_elements as usize,
                ]);
                Ok((output_hc, Tensor::from_f32_bits(values.as_slice(), Shape::new(shape))))
            },
        }
    }

    /// The RESULT for a request: the tensors of a dispatch that succeeded, or the message of the
    /// error of one that failed.
    pub fn answer(&self, req_id: u64, outcome: &Ds4Result<(Tensor, Tensor)>) -> (r: ResultMsg)
        ensures
            r.req_id == req_id,
            match outcome {
                Ok((hc, logits)) => {
                    &&& r.ok
                    &&& r.error is None
                    &&& r.output_hc@ == hc@
                    &&& r.output_logits@ == logits@
                },
                Err(e) => {
                    &&& !r.ok
                    &&& r.error matches Some(text)
                    &&& text@ == e.message@
                    &&& r.output_hc@ == empty_tensor()
                    &&& r.output_logits@ == empty_tensor()
                },
            },
    {
        match outcome {
            Ok((hc, logits)) => ResultMsg {
                req_id,
                ok: true,
                error: None,
                output_hc: hc.duplicate(),
                output_logits: logits.duplicate(),
            },
            Err(e) => ResultMsg {
                req_id,
                ok: false,
                error: Some(String::from_str(e.message.as_str())),
                output_hc: no_tensor(),
                output_logits: no_tensor(),
            },
        }
    }
}

/// A hidden state of two dimensions has a row for each token, one of a single dimension is that of
/// one token, and one without elements has no token.
pub proof fn law_token_count(n: usize, width: usize, dims: Seq<usize>)
    ensures
        n > 0 && width > 0 ==> token_count(seq![n, width]) == n,
        width > 0 ==> token_count(seq![width]) == 1,
        (exists|i: int| 0 <= i < dims.len() && #[trigger] dims[i] == 0) ==> token_count(dims) == 0,
        token_count(Seq::<usize>::empty()) == 0,
{
    let two = seq![n, width];
    assert(n > 0 && width > 0 ==> !two.contains(0)) by {
        if n > 0 && width > 0 && two.contains(0) {
            let i = choose|i: int| 0 <= i < two.len() && two[i] == 0;
            assert(i == 0 || i == 1);
        }
    }
    if exists|i: int| 0 <= i < dims.len() && #[trigger] dims[i] == 0 {
        let i = choose|i: int| 0 <= i < dims.len() && #[trigger] dims[i] == 0;
        assert(dims.contains(0));
    }
}

/// A worker that runs a range of layers runs every range inside it, and has its first and its last
/// layer; and it runs the range that it was given.
pub proof fn law_runs_inside(w: Worker, layer_start: usize, layer_end: usize, a: usize, b: usize)
    requires
        layer_start <= a,
        b <= layer_end,
    ensures
        w.runs(layer_start, layer_end) ==> w.runs(a, b),
        w.runs(layer_start, layer_end) ==> w.layer_start <= layer_start && layer_end <= w.layer_end,
        w.runs(w.layer_start, w.layer_end),
        layer_start < w.layer_start || w.layer_end < layer_end ==> !w.runs(layer_start, layer_end),
{
}

} // verus!
