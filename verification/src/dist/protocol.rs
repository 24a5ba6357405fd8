//! Frames and messages of the distributed protocol.
//!
//! A frame is `magic | msg_type | length | payload`, the first three as little-endian words, the
//! last `length` bytes long. A receiver that reads another magic gives the connection up.

use vstd::bytes::{spec_u32_to_le_bytes, spec_u64_to_le_bytes};
use vstd::prelude::*;
use vstd::string::StringExecFns;
use vstd::utf8::{
    decode_utf8, encode_utf8, encode_utf8_decode_utf8, encode_utf8_valid_utf8, valid_utf8,
};

use crate::dist::msg;
use crate::dist::{DEFAULT_ACTIVATION_BITS, DS4_DIST_WIRE_MAGIC, SNAPSHOT_CHUNK_BYTES};
use crate::float_bits::{all_num_eq, bits_all_num_eq};
use crate::le::{
    io_text, is_io_error, le32, le64, le_sizes, le_words, lemma_le32, lemma_le64, lemma_le_sizes,
    lemma_le_words, lemma_u32_at, lemma_u64_at, put_bytes, put_sizes, put_u32, put_u64, put_u8,
    put_words, u32_at, u64_at, words_of, ByteReader,
};
use crate::slices::{bytes_eq, sizes_eq, words_eq};
use crate::tensor::{DType, Shape, Tensor, TensorView};
use crate::text::{dec, hex, push_dec, push_hex};
use crate::types::{Ds4DistributedRole, Ds4Error, Ds4ErrorKind, Ds4Result};

verus! {

/// The magic of the wire format.
pub const MAGIC: u32 = DS4_DIST_WIRE_MAGIC;

/// Version of the wire format.
pub const WIRE_VERSION: u32 = 1;

/// Activation width of a HELLO built here.
pub const DEFAULT_ACTIVATION_BITS_WIRE: u8 = DEFAULT_ACTIVATION_BITS;

/// Largest payload that a frame may carry.
pub const MAX_FRAME_PAYLOAD: usize = SNAPSHOT_CHUNK_BYTES * 2;

/// Outcome of reading a message from bytes.
pub enum Parsed<T> {
    /// The message, and the position after it.
    Done(T, int),
    /// The bytes end before the message does.
    Short,
    /// A type tag that stands for nothing.
    BadTag(u8),
    /// A length above what the message may carry.
    TooLong(nat),
}

// ---- Tags ----

/// The tag of an element type.
pub open spec fn dtype_tag(d: DType) -> u8 {
    match d {
        DType::F32 => 0,
        DType::F16 => 1,
        DType::BF16 => 2,
        DType::F64 => 3,
        DType::I8 => 4,
        DType::U8 => 5,
        DType::I64 => 6,
        DType::U32 => 7,
        DType::U64 => 8,
    }
}

/// The element type of a tag.
pub open spec fn tagged_dtype(b: u8) -> Option<DType> {
    if b == 0 {
        Some(DType::F32)
    } else if b == 1 {
        Some(DType::F16)
    } else if b == 2 {
        Some(DType::BF16)
    } else if b == 3 {
        Some(DType::F64)
    } else if b == 4 {
        Some(DType::I8)
    } else if b == 5 {
        Some(DType::U8)
    } else if b == 6 {
        Some(DType::I64)
    } else if b == 7 {
        Some(DType::U32)
    } else if b == 8 {
        Some(DType::U64)
    } else {
        None
    }
}

/// The tag of a role.
pub open spec fn role_tag(r: Ds4DistributedRole) -> u8 {
    match r {
        Ds4DistributedRole::Standalone => 0,
        Ds4DistributedRole::Coordinator => 1,
        Ds4DistributedRole::Worker => 2,
    }
}

/// The role of a tag.
pub open spec fn tagged_role(b: u8) -> Option<Ds4DistributedRole> {
    if b == 0 {
        Some(Ds4DistributedRole::Standalone)
    } else if b == 1 {
        Some(Ds4DistributedRole::Coordinator)
    } else if b == 2 {
        Some(Ds4DistributedRole::Worker)
    } else {
        None
    }
}

/// Every element type comes back from its tag.
pub proof fn law_dtype_tags(d: DType)
    ensures
        tagged_dtype(dtype_tag(d)) == Some(d),
{
}

/// Every role comes back from its tag.
pub proof fn law_role_tags(r: Ds4DistributedRole)
    ensures
        tagged_role(role_tag(r)) == Some(r),
{
}

/// The tag of an element type.
pub fn dtype_to_u8(d: DType) -> (b: u8)
    ensures
        b == dtype_tag(d),
{
    match d {
        DType::F32 => 0,
        DType::F16 => 1,
        DType::BF16 => 2,
        DType::F64 => 3,
        DType::I8 => 4,
        DType::U8 => 5,
        DType::I64 => 6,
        DType::U32 => 7,
        DType::U64 => 8,
    }
}

/// The error for a tag of no element type.
pub open spec fn bad_dtype(e: Ds4Error, b: u8) -> bool {
    e.is(Ds4ErrorKind::InvalidArgument, "unknown dtype tag "@ + dec(b as nat))
}

/// The element type of a tag.
pub fn dtype_from_u8(b: u8) -> (r: Ds4Result<DType>)
    ensures
        match r {
            Ok(d) => tagged_dtype(b) == Some(d),
            Err(e) => tagged_dtype(b) is None && bad_dtype(e, b),
        },
{
    match b {
        0 => Ok(DType::F32),
        1 => Ok(DType::F16),
        2 => Ok(DType::BF16),
        3 => Ok(DType::F64),
        4 => Ok(DType::I8),
        5 => Ok(DType::U8),
        6 => Ok(DType::I64),
        7 => Ok(DType::U32),
        8 => Ok(DType::U64),
        _ => {
            let mut m: String = String::from_str("unknown dtype tag ");
            push_dec(&mut m, b as u64);
            Err(Ds4Error::new(Ds4ErrorKind::InvalidArgument, m))
        },
    }
}

/// The tag of a role.
pub fn role_to_u8(r: Ds4DistributedRole) -> (b: u8)
    ensures
        b == role_tag(r),
{
    match r {
        Ds4DistributedRole::Standalone => 0,
        Ds4DistributedRole::Coordinator => 1,
        Ds4DistributedRole::Worker => 2,
    }
}

/// The error for a tag of no role.
pub open spec fn bad_role(e: Ds4Error, b: u8) -> bool {
    e.is(Ds4ErrorKind::InvalidArgument, "unknown role tag "@ + dec(b as nat))
}

/// The role of a tag.
pub fn role_from_u8(b: u8) -> (r: Ds4Result<Ds4DistributedRole>)
    ensures
        match r {
            Ok(d) => tagged_role(b) == Some(d),
            Err(e) => tagged_role(b) is None && bad_role(e, b),
        },
{
    match b {
        0 => Ok(Ds4DistributedRole::Standalone),
        1 => Ok(Ds4DistributedRole::Coordinator),
        2 => Ok(Ds4DistributedRole::Worker),
        _ => {
            let mut m: String = String::from_str("unknown role tag ");
            push_dec(&mut m, b as u64);
            Err(Ds4Error::new(Ds4ErrorKind::InvalidArgument, m))
        },
    }
}

// ---- HELLO ----

/// Sent by both peers when they connect.
#[derive(Debug, Clone, Copy, PartialEq, Eq, Structural)]
pub struct Hello {
    pub wire_version: u32,
    pub role: Ds4DistributedRole,
    pub n_layers: u32,
    pub head_elements: u32,
    pub activation_bits: u8,
}

/// The 14 bytes of a HELLO.
pub open spec fn hello_bytes(h: Hello) -> Seq<u8> {
    le32(h.wire_version).push(role_tag(h.role)) + le32(h.n_layers) + le32(h.head_elements).push(
        h.activation_bits,
    )
}

/// The HELLO at the start of `s`.
pub open spec fn parse_hello(s: Seq<u8>) -> Parsed<Hello> {
    if s.len() < 14 {
        Parsed::Short
    } else if tagged_role(s[4]) is None {
        Parsed::BadTag(s[4])
    } else {
        Parsed::Done(
            Hello {
                wire_version: u32_at(s, 0),
                role: tagged_role(s[4]).unwrap(),
                n_layers: u32_at(s, 5),
                head_elements: u32_at(s, 9),
                activation_bits: s[13],
            },
            14,
        )
    }
}

/// Decoding an encoded HELLO gives it back.
pub proof fn law_hello_roundtrip(h: Hello)
    ensures
        parse_hello(hello_bytes(h)) == Parsed::Done(h, hello_bytes(h).len() as int),
{
    let s = hello_bytes(h);
    lemma_le32(h.wire_version);
    lemma_le32(h.n_layers);
    lemma_le32(h.head_elements);
    assert(s.subrange(0, 4) =~= le32(h.wire_version));
    assert(s.subrange(5, 9) =~= le32(h.n_layers));
    assert(s.subrange(9, 13) =~= le32(h.head_elements));
}

impl Hello {
    /// The HELLO of a coordinator.
    pub fn coordinator(n_layers: u32, head_elements: u32) -> (h: Self)
        ensures
            h == (Hello {
                wire_version: WIRE_VERSION,
                role: Ds4DistributedRole::Coordinator,
                n_layers,
                head_elements,
                activation_bits: DEFAULT_ACTIVATION_BITS_WIRE,
            }),
    {
        Hello {
            wire_version: WIRE_VERSION,
            role: Ds4DistributedRole::Coordinator,
            n_layers,
            head_elements,
            activation_bits: DEFAULT_ACTIVATION_BITS_WIRE,
        }
    }

    /// The HELLO of a worker.
    pub fn worker(n_layers: u32, head_elements: u32) -> (h: Self)
        ensures
            h == (Hello {
                wire_version: WIRE_VERSION,
                role: Ds4DistributedRole::Worker,
                n_layers,
                head_elements,
                activation_bits: DEFAULT_ACTIVATION_BITS_WIRE,
            }),
    {
        Hello {
            wire_version: WIRE_VERSION,
            role: Ds4DistributedRole::Worker,
            n_layers,
            head_elements,
            activation_bits: DEFAULT_ACTIVATION_BITS_WIRE,
        }
    }

    /// The payload bytes.
    pub fn encode(&self) -> (r: Vec<u8>)
        ensures
            r@ == hello_bytes(*self),
    {
        let mut buf: Vec<u8> = Vec::with_capacity(14);
        put_u32(&mut buf, self.wire_version);
        put_u8(&mut buf, role_to_u8(self.role));
        put_u32(&mut buf, self.n_layers);
        put_u32(&mut buf, self.head_elements);
        put_u8(&mut buf, self.activation_bits);
        assert(buf@ =~= hello_bytes(*self));
        buf
    }

    /// Reads a payload. Bytes after the message are ignored.
    pub fn decode(bytes: &[u8]) -> (r: Ds4Result<Self>)
        ensures
            match parse_hello(bytes@) {
                Parsed::Done(h, _) => r == Ok::<Hello, Ds4Error>(h),
                Parsed::BadTag(b) => r matches Err(e) && bad_role(e, b),
                _ => r matches Err(e) && e.is(
                    Ds4ErrorKind::InvalidArgument,
                    "HELLO payload too short: "@ + dec(bytes@.len()) + " bytes (need 14)"@,
                ),
            },
    {
        if bytes.len() < 14 {
            let mut m: String = String::from_str("HELLO payload too short: ");
            push_dec(&mut m, bytes.len() as u64);
            m.append(" bytes (need 14)");
            return Err(Ds4Error::new(Ds4ErrorKind::InvalidArgument, m));
        }
        let mut cur = ByteReader::new(bytes);
        let wire_version: u32 = cur.read_u32()?;
        let tag: u8 = cur.read_u8()?;
        let role = role_from_u8(tag)?;
        let n_layers: u32 = cur.read_u32()?;
        let head_elements: u32 = cur.read_u32()?;
        let activation_bits: u8 = cur.read_u8()?;
        Ok(Hello { wire_version, role, n_layers, head_elements, activation_bits })
    }
}

// ---- Tensors ----

/// The bytes of a tensor: tag, rank, dimensions, byte count, bytes.
pub open spec fn tensor_bytes(t: TensorView) -> Seq<u8> {
    seq![dtype_tag(t.dtype)] + le32(t.dims.len() as u32) + le_sizes(t.dims) + le64(
        t.data.len() as u64,
    ) + t.data
}

/// The tensor at `p`.
pub open spec fn parse_tensor(s: Seq<u8>, p: int) -> Parsed<TensorView> {
    if p + 1 > s.len() {
        Parsed::Short
    } else if tagged_dtype(s[p]) is None {
        Parsed::BadTag(s[p])
    } else if p + 5 > s.len() {
        Parsed::Short
    } else {
        let rank = u32_at(s, p + 1) as nat;
        let q = p + 5 + 8 * rank;
        if q + 8 > s.len() {
            Parsed::Short
        } else {
            let n = u64_at(s, q) as usize;
            if q + 8 + n > s.len() {
                Parsed::Short
            } else {
                Parsed::Done(
                    TensorView {
                        dtype: tagged_dtype(s[p]).unwrap(),
                        dims: Seq::new(rank, |i: int| u64_at(s, p + 5 + 8 * i) as usize),
                        data: s.subrange(q + 8, q + 8 + n),
                    },
                    q + 8 + n,
                )
            }
        }
    }
}

/// The tensor can be put on the wire without loss: its rank fits a word, and its byte count a
/// size.
pub open spec fn wire_tensor(t: TensorView) -> bool {
    t.dims.len() <= u32::MAX && t.data.len() <= usize::MAX
}

/// A tensor that stands between other bytes is read back, whatever follows it.
pub proof fn law_tensor_roundtrip(before: Seq<u8>, t: TensorView, after: Seq<u8>)
    requires
        wire_tensor(t),
    ensures
        parse_tensor(before + tensor_bytes(t) + after, before.len() as int) == Parsed::Done(
            t,
            (before.len() + tensor_bytes(t).len()) as int,
        ),
{
    let s = before + tensor_bytes(t) + after;
    let p = before.len() as int;
    let rank = t.dims.len();
    lemma_le32(rank as u32);
    lemma_le_sizes(t.dims);
    lemma_le64(t.data.len() as u64);
    assert(s[p] == dtype_tag(t.dtype));
    assert(s.subrange(p + 1, p + 5) =~= le32(rank as u32));
    assert(u32_at(s, p + 1) == rank);
    let q = p + 5 + 8 * rank;
    assert(s.subrange(q, q + 8) =~= le64(t.data.len() as u64));
    assert(u64_at(s, q) == t.data.len());
    let dims = Seq::new(rank, |i: int| u64_at(s, p + 5 + 8 * i) as usize);
    assert forall|i: int| 0 <= i < rank implies dims[i] == t.dims[i] by {
        let x = p + 5 + 8 * i;
        assert(le_sizes(t.dims).subrange(8 * i, 8 * i + 8) == le64(t.dims[i] as u64));
        assert(s.subrange(x, x + 8) =~= le_sizes(t.dims).subrange(8 * i, 8 * i + 8));
        lemma_u64_at(s, x, t.dims[i] as u64);
    }
    assert(dims =~= t.dims);
    assert(s.subrange(q + 8, q + 8 + t.data.len()) =~= t.data);
}

/// Appends the bytes of a tensor.
pub fn encode_tensor(w: &mut Vec<u8>, t: &Tensor)
    ensures
        final(w)@ == old(w)@ + tensor_bytes(t@),
{
    put_u8(w, dtype_to_u8(t.dtype));
    put_u32(w, t.shape.dims.len() as u32);
    put_sizes(w, t.shape.dims());
    put_u64(w, t.data.len() as u64);
    put_bytes(w, t.as_bytes());
    assert(w@ =~= old(w)@ + tensor_bytes(t@));
}

/// Takes a tensor from the reader.
pub fn decode_tensor(r: &mut ByteReader) -> (res: Ds4Result<Tensor>)
    requires
        old(r).wf(),
    ensures
        final(r).wf(),
        final(r).bytes == old(r).bytes,
        match parse_tensor(old(r).bytes@, old(r).pos as int) {
            Parsed::Done(t, next) => res matches Ok(x) && x@ == t && final(r).pos == next,
            Parsed::BadTag(b) => res matches Err(e) && bad_dtype(e, b),
            _ => res matches Err(e) && is_io_error(e),
        },
{
    let ghost s = r.bytes@;
    let ghost p = r.pos as int;
    let tag: u8 = r.read_u8()?;
    let dtype = dtype_from_u8(tag)?;
    let rank: u32 = r.read_u32()?;
    let mut dims: Vec<usize> = Vec::new();
    let mut i: u32 = 0;
    while i < rank
        invariant
            i <= rank,
            r.wf(),
            r.bytes@ == s,
            r.bytes == old(r).bytes,
            s == old(r).bytes@,
            p == old(r).pos,
            p + 5 <= s.len(),
            0 <= p,
            tagged_dtype(s[p]) is Some,
            rank == u32_at(s, p + 1),
            r.pos == p + 5 + 8 * i,
            dims@.len() == i,
            forall|j: int| 0 <= j < i ==> dims@[j] == u64_at(s, p + 5 + 8 * j) as usize,
        decreases rank - i,
    {
        let d: u64 = r.read_u64()?;
        dims.push(d as usize);
        i += 1;
    }
    let n: u64 = r.read_u64()?;
    let data: Vec<u8> = r.read_bytes(n as usize)?;
    proof {
        assert(dims@ =~= Seq::new(rank as nat, |i: int| u64_at(s, p + 5 + 8 * i) as usize));
    }
    Ok(Tensor { dtype, shape: Shape::new(dims), data })
}

/// Two tensors agree: same element type, same dimensions, and the same elements. Single-precision
/// elements are compared as numbers, all others byte by byte.
pub open spec fn tensors_agree(a: TensorView, b: TensorView) -> bool {
    a.dtype == b.dtype && a.dims == b.dims && if a.dtype == DType::F32 {
        all_num_eq(words_of(a.data), words_of(b.data))
    } else {
        a.data == b.data
    }
}

fn tensor_eq(a: &Tensor, b: &Tensor) -> (r: bool)
    ensures
        r == tensors_agree(a@, b@),
{
    if a.dtype != b.dtype || !sizes_eq(a.shape.dims(), b.shape.dims()) {
        return false;
    }
    if a.dtype == DType::F32 {
        bits_all_num_eq(a.as_f32_bits().as_slice(), b.as_f32_bits().as_slice())
    } else {
        bytes_eq(a.as_bytes(), b.as_bytes())
    }
}

// ---- WORK ----

/// Asks a worker to run tokens through layers `layer_start..layer_end`.
#[derive(Debug, Clone)]
pub struct Work {
    pub req_id: u64,
    pub tokens: Vec<u32>,
    pub pos0: usize,
    pub layer_start: usize,
    pub layer_end: usize,
    pub input_hc: Tensor,
}

/// What a WORK holds.
pub struct WorkView {
    pub req_id: u64,
    pub tokens: Seq<u32>,
    pub pos0: usize,
    pub layer_start: usize,
    pub layer_end: usize,
    pub input_hc: TensorView,
}

impl View for Work {
    type V = WorkView;

    open spec fn view(&self) -> WorkView {
        WorkView {
            req_id: self.req_id,
            tokens: self.tokens@,
            pos0: self.pos0,
            layer_start: self.layer_start,
            layer_end: self.layer_end,
            input_hc: self.input_hc@,
        }
    }
}

/// The bytes of a WORK.
pub open spec fn work_bytes(w: WorkView) -> Seq<u8> {
    le64(w.req_id) + le32(w.tokens.len() as u32) + le_words(w.tokens) + le64(w.pos0 as u64) + le64(
        w.layer_start as u64,
    ) + le64(w.layer_end as u64) + tensor_bytes(w.input_hc)
}

/// The WORK at the start of `s`.
pub open spec fn parse_work(s: Seq<u8>) -> Parsed<WorkView> {
    if s.len() < 12 {
        Parsed::Short
    } else {
        let n = u32_at(s, 8) as nat;
        let q = 12 + 4 * n as int;
        if q + 24 > s.len() {
            Parsed::Short
        } else {
            match parse_tensor(s, q + 24) {
                Parsed::Done(t, next) => Parsed::Done(
                    WorkView {
                        req_id: u64_at(s, 0),
                        tokens: Seq::new(n, |i: int| u32_at(s, 12 + 4 * i)),
                        pos0: u64_at(s, q) as usize,
                        layer_start: u64_at(s, q + 8) as usize,
                        layer_end: u64_at(s, q + 16) as usize,
                        input_hc: t,
                    },
                    next,
                ),
                Parsed::Short => Parsed::Short,
                Parsed::BadTag(b) => Parsed::BadTag(b),
                Parsed::TooLong(k) => Parsed::TooLong(k),
            }
        }
    }
}

/// Decoding an encoded WORK gives it back.
pub proof fn law_work_roundtrip(w: WorkView)
    requires
        w.tokens.len() <= u32::MAX,
        wire_tensor(w.input_hc),
    ensures
        parse_work(work_bytes(w)) == Parsed::Done(w, work_bytes(w).len() as int),
{
    let s = work_bytes(w);
    let n = w.tokens.len();
    lemma_le64(w.req_id);
    lemma_le32(n as u32);
    lemma_le_words(w.tokens);
    lemma_le64(w.pos0 as u64);
    lemma_le64(w.layer_start as u64);
    lemma_le64(w.layer_end as u64);
    assert(s.subrange(0, 8) =~= le64(w.req_id));
    assert(s.subrange(8, 12) =~= le32(n as u32));
    let q = (12 + 4 * n) as int;
    assert(s.subrange(q, q + 8) =~= le64(w.pos0 as u64));
    assert(s.subrange(q + 8, q + 16) =~= le64(w.layer_start as u64));
    assert(s.subrange(q + 16, q + 24) =~= le64(w.layer_end as u64));
    let before = s.take(q + 24);
    law_tensor_roundtrip(before, w.input_hc, Seq::empty());
    assert(s =~= before + tensor_bytes(w.input_hc) + Seq::<u8>::empty());
    let tokens = Seq::new(n, |i: int| u32_at(s, 12 + 4 * i));
    assert forall|i: int| 0 <= i < n implies tokens[i] == w.tokens[i] by {
        let x = 12 + 4 * i;
        assert(le_words(w.tokens).subrange(4 * i, 4 * i + 4) == le32(w.tokens[i]));
        assert(s.subrange(x, x + 4) =~= le_words(w.tokens).subrange(4 * i, 4 * i + 4));
        lemma_u32_at(s, x, w.tokens[i]);
    }
    assert(tokens =~= w.tokens);
}

/// Two WORK messages agree.
pub open spec fn works_agree(a: WorkView, b: WorkView) -> bool {
    &&& a.req_id == b.req_id
    &&& a.tokens == b.tokens
    &&& a.pos0 == b.pos0
    &&& a.layer_start == b.layer_start
    &&& a.layer_end == b.layer_end
    &&& tensors_agree(a.input_hc, b.input_hc)
}

impl PartialEq for Work {
    fn eq(&self, other: &Self) -> (r: bool) {
        self.req_id == other.req_id && words_eq(self.tokens.as_slice(), other.tokens.as_slice())
            && self.pos0 == other.pos0 && self.layer_start == other.layer_start && self.layer_end
            == other.layer_end && tensor_eq(&self.input_hc, &other.input_hc)
    }
}

impl vstd::std_specs::cmp::PartialEqSpecImpl for Work {
    open spec fn obeys_eq_spec() -> bool {
        true
    }

    open spec fn eq_spec(&self, other: &Self) -> bool {
        works_agree(self@, other@)
    }
}

impl Work {
    /// The payload bytes.
    pub fn encode(&self) -> (r: Vec<u8>)
        ensures
            r@ == work_bytes(self@),
    {
        let mut buf: Vec<u8> = Vec::new();
        put_u64(&mut buf, self.req_id);
        put_u32(&mut buf, self.tokens.len() as u32);
        put_words(&mut buf, self.tokens.as_slice());
        put_u64(&mut buf, self.pos0 as u64);
        put_u64(&mut buf, self.layer_start as u64);
        put_u64(&mut buf, self.layer_end as u64);
        encode_tensor(&mut buf, &self.input_hc);
        assert(buf@ =~= work_bytes(self@));
        buf
    }

    /// Reads a payload. Bytes after the message are ignored.
    pub fn decode(bytes: &[u8]) -> (r: Ds4Result<Self>)
        ensures
            match parse_work(bytes@) {
                Parsed::Done(w, _) => r matches Ok(x) && x@ == w,
                Parsed::BadTag(b) => r matches Err(e) && bad_dtype(e, b),
                _ => r matches Err(e) && is_io_error(e),
            },
    {
        let ghost s = bytes@;
        let mut cur = ByteReader::new(bytes);
        let req_id: u64 = cur.read_u64()?;
        let n_tok: u32 = cur.read_u32()?;
        let mut tokens: Vec<u32> = Vec::new();
        let mut i: u32 = 0;
        while i < n_tok
            invariant
                i <= n_tok,
                cur.wf(),
                cur.bytes@ == s,
                s == bytes@,
                s.len() >= 12,
                n_tok == u32_at(s, 8),
                cur.pos == 12 + 4 * i,
                tokens@.len() == i,
                forall|j: int| 0 <= j < i ==> tokens@[j] == u32_at(s, 12 + 4 * j),
            decreases n_tok - i,
        {
            let t: u32 = cur.read_u32()?;
            tokens.push(t);
            i += 1;
        }
        let pos0: u64 = cur.read_u64()?;
        let layer_start: u64 = cur.read_u64()?;
        let layer_end: u64 = cur.read_u64()?;
        let input_hc = decode_tensor(&mut cur)?;
        proof {
            assert(tokens@ =~= Seq::new(n_tok as nat, |i: int| u32_at(s, 12 + 4 * i)));
        }
        Ok(
            Work {
                req_id,
                tokens,
                pos0: pos0 as usize,
                layer_start: layer_start as usize,
                layer_end: layer_end as usize,
                input_hc,
            },
        )
    }
}

// ---- RESULT ----

/// The characters of a byte string in which what is not UTF-8 has been replaced.
pub uninterp spec fn utf8_lossy(bytes: Seq<u8>) -> Seq<char>;

/// Reads text, replacing what is not UTF-8. `String::from_utf8_lossy` depends on the bytes
/// alone, and gives valid UTF-8 back unchanged.
#[verifier::external_body]
pub(crate) fn lossy_text(bytes: &[u8]) -> (r: String)
    ensures
        r@ == utf8_lossy(bytes@),
        valid_utf8(bytes@) ==> r@ == decode_utf8(bytes@),
{
    String::from_utf8_lossy(bytes).into_owned()
}

/// A worker's answer to a WORK.
#[derive(Debug, Clone)]
pub struct ResultMsg {
    pub req_id: u64,
    pub ok: bool,
    pub error: Option<String>,
    pub output_hc: Tensor,
    pub output_logits: Tensor,
}

/// What a RESULT holds, the text of its error as bytes.
pub struct ResultView {
    pub req_id: u64,
    pub ok: bool,
    pub error: Option<Seq<u8>>,
    pub output_hc: TensorView,
    pub output_logits: TensorView,
}

/// The UTF-8 bytes of an optional text.
pub open spec fn error_bytes(error: Option<String>) -> Option<Seq<u8>> {
    match error {
        None => None,
        Some(t) => Some(encode_utf8(t@)),
    }
}

impl View for ResultMsg {
    type V = ResultView;

    open spec fn view(&self) -> ResultView {
        ResultView {
            req_id: self.req_id,
            ok: self.ok,
            error: error_bytes(self.error),
            output_hc: self.output_hc@,
            output_logits: self.output_logits@,
        }
    }
}

/// The length field of a RESULT without an error text.
pub const NO_ERROR_LEN: u32 = 0xFFFF_FFFF;

/// The bytes of the error field.
pub open spec fn error_field(error: Option<Seq<u8>>) -> Seq<u8> {
    match error {
        None => le32(NO_ERROR_LEN),
        Some(b) => le32(b.len() as u32) + b,
    }
}

/// The bytes of a RESULT.
pub open spec fn result_bytes(r: ResultView) -> Seq<u8> {
    le64(r.req_id).push(if r.ok {
        1u8
    } else {
        0u8
    }) + error_field(r.error) + tensor_bytes(r.output_hc) + tensor_bytes(r.output_logits)
}

/// The RESULT at the start of `s`.
pub open spec fn parse_result(s: Seq<u8>) -> Parsed<ResultView> {
    if s.len() < 13 {
        Parsed::Short
    } else {
        let len = u32_at(s, 9);
        let q = if len == NO_ERROR_LEN {
            13int
        } else {
            13 + len
        };
        if q > s.len() {
            Parsed::Short
        } else {
            match parse_tensor(s, q) {
                Parsed::Done(hc, mid) => match parse_tensor(s, mid) {
                    Parsed::Done(logits, next) => Parsed::Done(
                        ResultView {
                            req_id: u64_at(s, 0),
                            ok: s[8] != 0,
                            error: if len == NO_ERROR_LEN {
                                None
                            } else {
                                Some(s.subrange(13, q))
                            },
                            output_hc: hc,
                            output_logits: logits,
                        },
                        next,
                    ),
                    Parsed::Short => Parsed::Short,
                    Parsed::BadTag(b) => Parsed::BadTag(b),
                    Parsed::TooLong(k) => Parsed::TooLong(k),
                },
                Parsed::Short => Parsed::Short,
                Parsed::BadTag(b) => Parsed::BadTag(b),
                Parsed::TooLong(k) => Parsed::TooLong(k),
            }
        }
    }
}

proof fn lemma_two_tensors(head: Seq<u8>, a: TensorView, b: TensorView)
    requires
        wire_tensor(a),
        wire_tensor(b),
    ensures
        ({
            let s = head + tensor_bytes(a) + tensor_bytes(b);
            let mid = (head.len() + tensor_bytes(a).len()) as int;
            &&& parse_tensor(s, head.len() as int) == Parsed::Done(a, mid)
            &&& parse_tensor(s, mid) == Parsed::Done(b, s.len() as int)
        }),
{
    let s = head + tensor_bytes(a) + tensor_bytes(b);
    law_tensor_roundtrip(head, a, tensor_bytes(b));
    law_tensor_roundtrip(head + tensor_bytes(a), b, Seq::empty());
    assert(s =~= head + tensor_bytes(a) + tensor_bytes(b) + Seq::<u8>::empty());
}

/// Decoding an encoded RESULT gives it back. The length of an error text has to differ from the
/// mark for no text.
pub proof fn law_result_roundtrip(r: ResultView)
    requires
        r.error matches Some(b) ==> b.len() < NO_ERROR_LEN,
        wire_tensor(r.output_hc),
        wire_tensor(r.output_logits),
    ensures
        parse_result(result_bytes(r)) == Parsed::Done(r, result_bytes(r).len() as int),
{
    let s = result_bytes(r);
    lemma_le64(r.req_id);
    assert(s.subrange(0, 8) =~= le64(r.req_id));
    let field = error_field(r.error);
    match r.error {
        None => {
            lemma_le32(NO_ERROR_LEN);
            assert(s.subrange(9, 13) =~= le32(NO_ERROR_LEN));
        },
        Some(b) => {
            lemma_le32(b.len() as u32);
            assert(s.subrange(9, 13) =~= le32(b.len() as u32));
            assert(s.subrange(13, 13 + b.len() as int) =~= b);
        },
    }
    let head = le64(r.req_id).push(if r.ok {
        1u8
    } else {
        0u8
    }) + field;
    lemma_two_tensors(head, r.output_hc, r.output_logits);
    assert(head.len() == 9 + field.len());
}

/// A text that was encoded as UTF-8 is read back unchanged.
pub proof fn law_error_text_roundtrip(text: Seq<char>)
    ensures
        valid_utf8(encode_utf8(text)),
        decode_utf8(encode_utf8(text)) == text,
{
    encode_utf8_valid_utf8(text);
    encode_utf8_decode_utf8(text);
}

/// The decoded text of an error field.
pub open spec fn is_error_text(error: Option<String>, bytes: Option<Seq<u8>>) -> bool {
    match bytes {
        None => error is None,
        Some(b) => {
            &&& error matches Some(t)
            &&& t@ == utf8_lossy(b)
            &&& valid_utf8(b) ==> t@ == decode_utf8(b)
        },
    }
}

/// Two RESULT messages agree.
pub open spec fn results_agree(a: ResultView, b: ResultView) -> bool {
    &&& a.req_id == b.req_id
    &&& a.ok == b.ok
    &&& a.error == b.error
    &&& tensors_agree(a.output_hc, b.output_hc)
    &&& tensors_agree(a.output_logits, b.output_logits)
}

fn error_eq(a: &Option<String>, b: &Option<String>) -> (r: bool)
    ensures
        r == (error_bytes(*a) == error_bytes(*b)),
{
    match (a, b) {
        (None, None) => true,
        (Some(x), Some(y)) => bytes_eq(x.as_str().as_bytes(), y.as_str().as_bytes()),
        _ => false,
    }
}

impl PartialEq for ResultMsg {
    fn eq(&self, other: &Self) -> (r: bool) {
        self.req_id == other.req_id && self.ok == other.ok && error_eq(&self.error, &other.error)
            && tensor_eq(&self.output_hc, &other.output_hc) && tensor_eq(
            &self.output_logits,
            &other.output_logits,
        )
    }
}

impl vstd::std_specs::cmp::PartialEqSpecImpl for ResultMsg {
    open spec fn obeys_eq_spec() -> bool {
        true
    }

    open spec fn eq_spec(&self, other: &Self) -> bool {
        results_agree(self@, other@)
    }
}

impl ResultMsg {
    /// The payload bytes.
    pub fn encode(&self) -> (r: Vec<u8>)
        ensures
            r@ == result_bytes(self@),
    {
        let mut buf: Vec<u8> = Vec::new();
        put_u64(&mut buf, self.req_id);
        put_u8(&mut buf, if self.ok { 1 } else { 0 });
        match &self.error {
            None => {
                put_u32(&mut buf, NO_ERROR_LEN);
            },
            Some(s) => {
                let bytes: &[u8] = s.as_str().as_bytes();
                put_u32(&mut buf, bytes.len() as u32);
                put_bytes(&mut buf, bytes);
            },
        }
        encode_tensor(&mut buf, &self.output_hc);
        encode_tensor(&mut buf, &self.output_logits);
        assert(buf@ =~= result_bytes(self@));
        buf
    }

    /// Reads a payload. Bytes after the message are ignored.
    pub fn decode(bytes: &[u8]) -> (r: Ds4Result<Self>)
        ensures
            match parse_result(bytes@) {
                Parsed::Done(v, _) => {
                    &&& r matches Ok(x)
                    &&& x.req_id == v.req_id
                    &&& x.ok == v.ok
                    &&& is_error_text(x.error, v.error)
                    &&& x.output_hc@ == v.output_hc
                    &&& x.output_logits@ == v.output_logits
                },
                Parsed::BadTag(b) => r matches Err(e) && bad_dtype(e, b),
                _ => r matches Err(e) && is_io_error(e),
            },
    {
        let mut cur = ByteReader::new(bytes);
        let req_id: u64 = cur.read_u64()?;
        let flag: u8 = cur.read_u8()?;
        let err_len: u32 = cur.read_u32()?;
        let error: Option<String> = if err_len == NO_ERROR_LEN {
            None
        } else {
            let text: Vec<u8> = cur.read_bytes(err_len as usize)?;
            Some(lossy_text(text.as_slice()))
        };
        let output_hc = decode_tensor(&mut cur)?;
        let output_logits = decode_tensor(&mut cur)?;
        Ok(ResultMsg { req_id, ok: flag != 0, error, output_hc, output_logits })
    }
}

// ---- Snapshots ----

/// Announces a snapshot of `total_bytes` bytes in `chunk_count` parts.
#[derive(Debug, Clone, PartialEq)]
pub struct SnapshotBegin {
    pub snapshot_id: u64,
    pub total_bytes: u64,
    pub chunk_count: u32,
    pub metadata: Vec<u8>,
}

/// What a SNAPSHOT_BEGIN holds.
pub struct BeginView {
    pub snapshot_id: u64,
    pub total_bytes: u64,
    pub chunk_count: u32,
    pub metadata: Seq<u8>,
}

impl View for SnapshotBegin {
    type V = BeginView;

    open spec fn view(&self) -> BeginView {
        BeginView {
            snapshot_id: self.snapshot_id,
            total_bytes: self.total_bytes,
            chunk_count: self.chunk_count,
            metadata: self.metadata@,
        }
    }
}

/// The bytes of a SNAPSHOT_BEGIN.
pub open spec fn begin_bytes(b: BeginView) -> Seq<u8> {
    le64(b.snapshot_id) + le64(b.total_bytes) + le32(b.chunk_count) + le32(b.metadata.len() as u32)
        + b.metadata
}

/// The SNAPSHOT_BEGIN at the start of `s`.
pub open spec fn parse_begin(s: Seq<u8>) -> Parsed<BeginView> {
    if s.len() < 24 || 24 + u32_at(s, 20) > s.len() {
        Parsed::Short
    } else {
        let next = 24 + u32_at(s, 20);
        Parsed::Done(
            BeginView {
                snapshot_id: u64_at(s, 0),
                total_bytes: u64_at(s, 8),
                chunk_count: u32_at(s, 16),
                metadata: s.subrange(24, next),
            },
            next,
        )
    }
}

/// Decoding an encoded SNAPSHOT_BEGIN gives it back.
pub proof fn law_begin_roundtrip(b: BeginView)
    requires
        b.metadata.len() <= u32::MAX,
    ensures
        parse_begin(begin_bytes(b)) == Parsed::Done(b, begin_bytes(b).len() as int),
{
    let s = begin_bytes(b);
    lemma_le64(b.snapshot_id);
    lemma_le64(b.total_bytes);
    lemma_le32(b.chunk_count);
    lemma_le32(b.metadata.len() as u32);
    assert(s.subrange(0, 8) =~= le64(b.snapshot_id));
    assert(s.subrange(8, 16) =~= le64(b.total_bytes));
    assert(s.subrange(16, 20) =~= le32(b.chunk_count));
    assert(s.subrange(20, 24) =~= le32(b.metadata.len() as u32));
    assert(s.subrange(24, s.len() as int) =~= b.metadata);
}

impl SnapshotBegin {
    /// The payload bytes.
    pub fn encode(&self) -> (r: Vec<u8>)
        ensures
            r@ == begin_bytes(self@),
    {
        let mut buf: Vec<u8> = Vec::new();
        put_u64(&mut buf, self.snapshot_id);
        put_u64(&mut buf, self.total_bytes);
        put_u32(&mut buf, self.chunk_count);
        put_u32(&mut buf, self.metadata.len() as u32);
        put_bytes(&mut buf, self.metadata.as_slice());
        assert(buf@ =~= begin_bytes(self@));
        buf
    }

    /// Reads a payload. Bytes after the message are ignored.
    pub fn decode(bytes: &[u8]) -> (r: Ds4Result<Self>)
        ensures
            match parse_begin(bytes@) {
                Parsed::Done(v, _) => r matches Ok(x) && x@ == v,
                _ => r matches Err(e) && is_io_error(e),
            },
    {
        let mut cur = ByteReader::new(bytes);
        let snapshot_id: u64 = cur.read_u64()?;
        let total_bytes: u64 = cur.read_u64()?;
        let chunk_count: u32 = cur.read_u32()?;
        let meta_len: u32 = cur.read_u32()?;
        let metadata: Vec<u8> = cur.read_bytes(meta_len as usize)?;
        Ok(SnapshotBegin { snapshot_id, total_bytes, chunk_count, metadata })
    }
}

/// Carries one part of a snapshot.
#[derive(Debug, Clone, PartialEq)]
pub struct SnapshotChunk {
    pub snapshot_id: u64,
    pub chunk_index: u32,
    pub payload: Vec<u8>,
}

/// What a SNAPSHOT_CHUNK holds.
pub struct ChunkView {
    pub snapshot_id: u64,
    pub chunk_index: u32,
    pub payload: Seq<u8>,
}

impl View for SnapshotChunk {
    type V = ChunkView;

    open spec fn view(&self) -> ChunkView {
        ChunkView {
            snapshot_id: self.snapshot_id,
            chunk_index: self.chunk_index,
            payload: self.payload@,
        }
    }
}

/// The bytes of a SNAPSHOT_CHUNK.
pub open spec fn chunk_bytes(c: ChunkView) -> Seq<u8> {
    le64(c.snapshot_id) + le32(c.chunk_index) + le32(c.payload.len() as u32) + c.payload
}

/// The SNAPSHOT_CHUNK at the start of `s`.
pub open spec fn parse_chunk(s: Seq<u8>) -> Parsed<ChunkView> {
    if s.len() < 16 {
        Parsed::Short
    } else if u32_at(s, 12) > SNAPSHOT_CHUNK_BYTES {
        Parsed::TooLong(u32_at(s, 12) as nat)
    } else if 16 + u32_at(s, 12) > s.len() {
        Parsed::Short
    } else {
        let next = 16 + u32_at(s, 12);
        Parsed::Done(
            ChunkView {
                snapshot_id: u64_at(s, 0),
                chunk_index: u32_at(s, 8),
                payload: s.subrange(16, next),
            },
            next,
        )
    }
}

/// Decoding an encoded SNAPSHOT_CHUNK of an admissible size gives it back.
pub proof fn law_chunk_roundtrip(c: ChunkView)
    requires
        c.payload.len() <= SNAPSHOT_CHUNK_BYTES,
    ensures
        parse_chunk(chunk_bytes(c)) == Parsed::Done(c, chunk_bytes(c).len() as int),
{
    let s = chunk_bytes(c);
    lemma_le64(c.snapshot_id);
    lemma_le32(c.chunk_index);
    lemma_le32(c.payload.len() as u32);
    assert(s.subrange(0, 8) =~= le64(c.snapshot_id));
    assert(s.subrange(8, 12) =~= le32(c.chunk_index));
    assert(s.subrange(12, 16) =~= le32(c.payload.len() as u32));
    assert(s.subrange(16, s.len() as int) =~= c.payload);
}

fn too_large(prefix: &str, got: usize, max: usize) -> (e: Ds4Error)
    ensures
        e.is(
            Ds4ErrorKind::InvalidArgument,
            prefix@ + dec(got as nat) + " > "@ + dec(max as nat),
        ),
{
    let mut m: String = String::from_str(prefix);
    push_dec(&mut m, got as u64);
    m.append(" > ");
    push_dec(&mut m, max as u64);
    Ds4Error::new(Ds4ErrorKind::InvalidArgument, m)
}

/// The error for a payload above its limit.
pub open spec fn is_too_large(e: Ds4Error, prefix: Seq<char>, got: nat, max: nat) -> bool {
    e.is(Ds4ErrorKind::InvalidArgument, prefix + dec(got) + " > "@ + dec(max))
}

impl SnapshotChunk {
    /// The payload bytes. A part above `SNAPSHOT_CHUNK_BYTES` is refused.
    pub fn encode(&self) -> (r: Ds4Result<Vec<u8>>)
        ensures
            match r {
                Ok(b) => self@.payload.len() <= SNAPSHOT_CHUNK_BYTES && b@ == chunk_bytes(self@),
                Err(e) => self@.payload.len() > SNAPSHOT_CHUNK_BYTES && is_too_large(
                    e,
                    "SNAPSHOT_CHUNK payload too large: "@,
                    self@.payload.len(),
                    SNAPSHOT_CHUNK_BYTES as nat,
                ),
            },
    {
        if self.payload.len() > SNAPSHOT_CHUNK_BYTES {
            return Err(
                too_large(
                    "SNAPSHOT_CHUNK payload too large: ",
                    self.payload.len(),
                    SNAPSHOT_CHUNK_BYTES,
                ),
            );
        }
        let mut buf: Vec<u8> = Vec::with_capacity(16 + self.payload.len());
        put_u64(&mut buf, self.snapshot_id);
        put_u32(&mut buf, self.chunk_index);
        put_u32(&mut buf, self.payload.len() as u32);
        put_bytes(&mut buf, self.payload.as_slice());
        assert(buf@ =~= chunk_bytes(self@));
        Ok(buf)
    }

    /// Reads a payload. Bytes after the message are ignored.
    pub fn decode(bytes: &[u8]) -> (r: Ds4Result<Self>)
        ensures
            match parse_chunk(bytes@) {
                Parsed::Done(v, _) => r matches Ok(x) && x@ == v,
                Parsed::TooLong(n) => r matches Err(e) && is_too_large(
                    e,
                    "SNAPSHOT_CHUNK payload too large on decode: "@,
                    n,
                    SNAPSHOT_CHUNK_BYTES as nat,
                ),
                _ => r matches Err(e) && is_io_error(e),
            },
    {
        let mut cur = ByteReader::new(bytes);
        let snapshot_id: u64 = cur.read_u64()?;
        let chunk_index: u32 = cur.read_u32()?;
        let len: u32 = cur.read_u32()?;
        if len as usize > SNAPSHOT_CHUNK_BYTES {
            return Err(
                too_large(
                    "SNAPSHOT_CHUNK payload too large on decode: ",
                    len as usize,
                    SNAPSHOT_CHUNK_BYTES,
                ),
            );
        }
        let payload: Vec<u8> = cur.read_bytes(len as usize)?;
        Ok(SnapshotChunk { snapshot_id, chunk_index, payload })
    }
}

/// Ends a snapshot; the receiver checks the counts against the announcement.
#[derive(Debug, Clone, Copy, PartialEq, Eq, Structural)]
pub struct SnapshotEnd {
    pub snapshot_id: u64,
    pub received_bytes: u64,
    pub received_chunks: u32,
    pub crc32: u32,
}

/// The bytes of a SNAPSHOT_END.
pub open spec fn end_bytes(e: SnapshotEnd) -> Seq<u8> {
    le64(e.snapshot_id) + le64(e.received_bytes) + le32(e.received_chunks) + le32(e.crc32)
}

/// The SNAPSHOT_END at the start of `s`.
pub open spec fn parse_end(s: Seq<u8>) -> Parsed<SnapshotEnd> {
    if s.len() < 24 {
        Parsed::Short
    } else {
        Parsed::Done(
            SnapshotEnd {
                snapshot_id: u64_at(s, 0),
                received_bytes: u64_at(s, 8),
                received_chunks: u32_at(s, 16),
                crc32: u32_at(s, 20),
            },
            24,
        )
    }
}

/// Decoding an encoded SNAPSHOT_END gives it back.
pub proof fn law_end_roundtrip(e: SnapshotEnd)
    ensures
        parse_end(end_bytes(e)) == Parsed::Done(e, end_bytes(e).len() as int),
{
    let s = end_bytes(e);
    lemma_le64(e.snapshot_id);
    lemma_le64(e.received_bytes);
    lemma_le32(e.received_chunks);
    lemma_le32(e.crc32);
    assert(s.subrange(0, 8) =~= le64(e.snapshot_id));
    assert(s.subrange(8, 16) =~= le64(e.received_bytes));
    assert(s.subrange(16, 20) =~= le32(e.received_chunks));
    assert(s.subrange(20, 24) =~= le32(e.crc32));
}

impl SnapshotEnd {
    /// The payload bytes.
    pub fn encode(&self) -> (r: Vec<u8>)
        ensures
            r@ == end_bytes(*self),
    {
        let mut buf: Vec<u8> = Vec::new();
        put_u64(&mut buf, self.snapshot_id);
        put_u64(&mut buf, self.received_bytes);
        put_u32(&mut buf, self.received_chunks);
        put_u32(&mut buf, self.crc32);
        assert(buf@ =~= end_bytes(*self));
        buf
    }

    /// Reads a payload. Bytes after the message are ignored.
    pub fn decode(bytes: &[u8]) -> (r: Ds4Result<Self>)
        ensures
            match parse_end(bytes@) {
                Parsed::Done(v, _) => r == Ok::<SnapshotEnd, Ds4Error>(v),
                _ => r matches Err(e) && is_io_error(e),
            },
    {
        let mut cur = ByteReader::new(bytes);
        let snapshot_id: u64 = cur.read_u64()?;
        let received_bytes: u64 = cur.read_u64()?;
        let received_chunks: u32 = cur.read_u32()?;
        let crc32: u32 = cur.read_u32()?;
        Ok(SnapshotEnd { snapshot_id, received_bytes, received_chunks, crc32 })
    }
}

/// Asks for a snapshot.
#[derive(Debug, Clone, Copy, PartialEq, Eq, Structural)]
pub struct SnapshotReq {
    pub snapshot_id: u64,
    pub last_known_version: u64,
}

/// The bytes of a SNAPSHOT_REQ.
pub open spec fn req_bytes(r: SnapshotReq) -> Seq<u8> {
    le64(r.snapshot_id) + le64(r.last_known_version)
}

/// The SNAPSHOT_REQ at the start of `s`.
pub open spec fn parse_req(s: Seq<u8>) -> Parsed<SnapshotReq> {
    if s.len() < 16 {
        Parsed::Short
    } else {
        Parsed::Done(
            SnapshotReq { snapshot_id: u64_at(s, 0), last_known_version: u64_at(s, 8) },
            16,
        )
    }
}

/// Decoding an encoded SNAPSHOT_REQ gives it back.
pub proof fn law_req_roundtrip(r: SnapshotReq)
    ensures
        parse_req(req_bytes(r)) == Parsed::Done(r, req_bytes(r).len() as int),
{
    let s = req_bytes(r);
    lemma_le64(r.snapshot_id);
    lemma_le64(r.last_known_version);
    assert(s.subrange(0, 8) =~= le64(r.snapshot_id));
    assert(s.subrange(8, 16) =~= le64(r.last_known_version));
}

impl SnapshotReq {
    /// The payload bytes.
    pub fn encode(&self) -> (r: Vec<u8>)
        ensures
            r@ == req_bytes(*self),
    {
        let mut buf: Vec<u8> = Vec::new();
        put_u64(&mut buf, self.snapshot_id);
        put_u64(&mut buf, self.last_known_version);
        assert(buf@ =~= req_bytes(*self));
        buf
    }

    /// Reads a payload. Bytes after the message are ignored.
    pub fn decode(bytes: &[u8]) -> (r: Ds4Result<Self>)
        ensures
            match parse_req(bytes@) {
                Parsed::Done(v, _) => r == Ok::<SnapshotReq, Ds4Error>(v),
                _ => r matches Err(e) && is_io_error(e),
            },
    {
        let mut cur = ByteReader::new(bytes);
        let snapshot_id: u64 = cur.read_u64()?;
        let last_known_version: u64 = cur.read_u64()?;
        Ok(SnapshotReq { snapshot_id, last_known_version })
    }
}

// ---- Frames ----

/// What can go wrong on the wire.
#[derive(Debug)]
pub enum WireError {
    Io(std::io::Error),
    BadMagic { got: u32, expected: u32 },
    FrameTooLarge(usize),
    ShortRead { needed: usize, got: usize },
    PayloadTooLarge { got: usize, max: usize },
    BadVersion(u32),
    BadMsgType(u32),
    Domain(String),
}

/// The text of an error, but for a stream error, of which only the start is known.
pub open spec fn wire_text(e: WireError, text: Seq<char>) -> bool {
    match e {
        WireError::Io(_) => "io error: "@.is_prefix_of(text),
        WireError::BadMagic { got, expected } => text == "bad magic: got 0x"@ + hex(got as nat)
            + ", expected 0x"@ + hex(expected as nat),
        WireError::FrameTooLarge(n) => text == "frame length too large: "@ + dec(n as nat)
            + " bytes"@,
        WireError::ShortRead { needed, got } => text == "short read: needed "@ + dec(needed as nat)
            + " bytes, got "@ + dec(got as nat),
        WireError::PayloadTooLarge { got, max } => text == "payload too large: "@ + dec(got as nat)
            + " > "@ + dec(max as nat),
        WireError::BadVersion(v) => text == "unsupported wire version: "@ + dec(v as nat),
        WireError::BadMsgType(t) => text == "unsupported message type: "@ + dec(t as nat),
        WireError::Domain(s) => text == "domain error: "@ + s@,
    }
}

impl WireError {
    /// The text of the error.
    pub fn message(&self) -> (r: String)
        ensures
            wire_text(*self, r@),
    {
        match self {
            WireError::Io(e) => {
                let mut m: String = String::from_str("io error: ");
                m.append(io_text(e).as_str());
                m
            },
            WireError::BadMagic { got, expected } => {
                let mut m: String = String::from_str("bad magic: got 0x");
                push_hex(&mut m, *got as u64);
                m.append(", expected 0x");
                push_hex(&mut m, *expected as u64);
                m
            },
            WireError::FrameTooLarge(n) => {
                let mut m: String = String::from_str("frame length too large: ");
                push_dec(&mut m, *n as u64);
                m.append(" bytes");
                m
            },
            WireError::ShortRead { needed, got } => {
                let mut m: String = String::from_str("short read: needed ");
                push_dec(&mut m, *needed as u64);
                m.append(" bytes, got ");
                push_dec(&mut m, *got as u64);
                m
            },
            WireError::PayloadTooLarge { got, max } => {
                let mut m: String = String::from_str("payload too large: ");
                push_dec(&mut m, *got as u64);
                m.append(" > ");
                push_dec(&mut m, *max as u64);
                m
            },
            WireError::BadVersion(v) => {
                let mut m: String = String::from_str("unsupported wire version: ");
                push_dec(&mut m, *v as u64);
                m
            },
            WireError::BadMsgType(t) => {
                let mut m: String = String::from_str("unsupported message type: ");
                push_dec(&mut m, *t as u64);
                m
            },
            WireError::Domain(s) => {
                let mut m: String = String::from_str("domain error: ");
                m.append(s.as_str());
                m
            },
        }
    }
}

/// A complete frame.
#[derive(Debug, Clone, PartialEq)]
pub struct Frame {
    pub magic: u32,
    pub msg_type: u32,
    pub payload: Vec<u8>,
}

/// What a frame holds.
pub struct FrameView {
    pub magic: u32,
    pub msg_type: u32,
    pub payload: Seq<u8>,
}

impl View for Frame {
    type V = FrameView;

    open spec fn view(&self) -> FrameView {
        FrameView { magic: self.magic, msg_type: self.msg_type, payload: self.payload@ }
    }
}

/// The bytes of a frame.
pub open spec fn frame_bytes(f: FrameView) -> Seq<u8> {
    le32(f.magic) + le32(f.msg_type) + le32(f.payload.len() as u32) + f.payload
}

/// Outcome of reading a frame from bytes.
pub enum FrameRead {
    /// The frame, and the position after it.
    Done(FrameView, int),
    /// The bytes end before the frame does.
    Short,
    /// The frame does not open with the magic.
    BadMagic(u32),
    /// The length is above `MAX_FRAME_PAYLOAD`.
    TooLarge(u32),
}

/// The frame at `p`. The magic is looked at before anything after it, the length before the
/// payload.
pub open spec fn read_frame(s: Seq<u8>, p: int) -> FrameRead {
    if p + 4 > s.len() {
        FrameRead::Short
    } else if u32_at(s, p) != MAGIC {
        FrameRead::BadMagic(u32_at(s, p))
    } else if p + 12 > s.len() {
        FrameRead::Short
    } else if u32_at(s, p + 8) > MAX_FRAME_PAYLOAD {
        FrameRead::TooLarge(u32_at(s, p + 8))
    } else if p + 12 + u32_at(s, p + 8) > s.len() {
        FrameRead::Short
    } else {
        let next = p + 12 + u32_at(s, p + 8);
        FrameRead::Done(
            FrameView {
                magic: MAGIC,
                msg_type: u32_at(s, p + 4),
                payload: s.subrange(p + 12, next),
            },
            next,
        )
    }
}

/// A frame in a stream of bytes is read back as it was written, whatever stands around it.
pub proof fn law_frame_roundtrip(before: Seq<u8>, f: FrameView, after: Seq<u8>)
    requires
        f.magic == MAGIC,
        f.payload.len() <= MAX_FRAME_PAYLOAD,
    ensures
        read_frame(before + frame_bytes(f) + after, before.len() as int) == FrameRead::Done(
            f,
            (before.len() + frame_bytes(f).len()) as int,
        ),
{
    let s = before + frame_bytes(f) + after;
    let p = before.len() as int;
    lemma_le32(f.magic);
    lemma_le32(f.msg_type);
    lemma_le32(f.payload.len() as u32);
    assert(s.subrange(p, p + 4) =~= le32(f.magic));
    assert(s.subrange(p + 4, p + 8) =~= le32(f.msg_type));
    assert(s.subrange(p + 8, p + 12) =~= le32(f.payload.len() as u32));
    assert(s.subrange(p + 12, p + 12 + f.payload.len()) =~= f.payload);
}

/// A frame that was written can be read, and a frame with another magic never is.
pub proof fn law_frame_needs_magic(f: FrameView)
    requires
        f.magic != MAGIC,
    ensures
        read_frame(frame_bytes(f), 0) == FrameRead::BadMagic(f.magic),
{
    let s = frame_bytes(f);
    lemma_le32(f.magic);
    lemma_le32(f.msg_type);
    lemma_le32(f.payload.len() as u32);
    assert(s.subrange(0, 4) =~= le32(f.magic));
}

/// Checks the first word of a frame.
pub fn check_magic(magic: u32) -> (r: Result<(), WireError>)
    ensures
        match r {
            Ok(()) => magic == MAGIC,
            Err(e) => magic != MAGIC && e == (WireError::BadMagic { got: magic, expected: MAGIC }),
        },
{
    if magic != MAGIC {
        return Err(WireError::BadMagic { got: magic, expected: MAGIC });
    }
    Ok(())
}

/// Checks the length word of a frame.
pub fn check_length(length: u32) -> (r: Result<usize, WireError>)
    ensures
        match r {
            Ok(n) => n == length && length <= MAX_FRAME_PAYLOAD,
            Err(e) => length > MAX_FRAME_PAYLOAD && e == (WireError::PayloadTooLarge {
                got: length as usize,
                max: MAX_FRAME_PAYLOAD,
            }),
        },
{
    if length as usize > MAX_FRAME_PAYLOAD {
        return Err(WireError::PayloadTooLarge { got: length as usize, max: MAX_FRAME_PAYLOAD });
    }
    Ok(length as usize)
}

/// The frame with this type and payload, or a refusal of a payload that is too large.
pub open spec fn framed(r: Ds4Result<Frame>, msg_type: u32, payload: Seq<u8>) -> bool {
    match r {
        Ok(f) => payload.len() <= MAX_FRAME_PAYLOAD && f@ == (FrameView {
            magic: MAGIC,
            msg_type,
            payload,
        }),
        Err(e) => payload.len() > MAX_FRAME_PAYLOAD && is_too_large(
            e,
            "Frame::new: payload too large: "@,
            payload.len(),
            MAX_FRAME_PAYLOAD as nat,
        ),
    }
}

impl Frame {
    /// Builds a frame. A payload above `MAX_FRAME_PAYLOAD` is refused.
    pub fn new(msg_type: u32, payload: Vec<u8>) -> (r: Ds4Result<Self>)
        ensures
            framed(r, msg_type, payload@),
    {
        if payload.len() > MAX_FRAME_PAYLOAD {
            return Err(
                too_large("Frame::new: payload too large: ", payload.len(), MAX_FRAME_PAYLOAD),
            );
        }
        Ok(Frame { magic: MAGIC, msg_type, payload })
    }

    /// The bytes of the frame.
    pub fn encode(&self) -> (r: Vec<u8>)
        ensures
            r@ == frame_bytes(self@),
    {
        let mut buf: Vec<u8> = Vec::new();
        put_u32(&mut buf, self.magic);
        put_u32(&mut buf, self.msg_type);
        put_u32(&mut buf, self.payload.len() as u32);
        put_bytes(&mut buf, self.payload.as_slice());
        assert(buf@ =~= frame_bytes(self@));
        buf
    }

    /// Takes a frame from the reader.
    pub fn read_from(reader: &mut ByteReader) -> (r: Result<Self, WireError>)
        requires
            old(reader).wf(),
        ensures
            final(reader).wf(),
            final(reader).bytes == old(reader).bytes,
            match read_frame(old(reader).bytes@, old(reader).pos as int) {
                FrameRead::Done(f, next) => r matches Ok(x) && x@ == f && final(reader).pos == next,
                FrameRead::Short => r matches Err(WireError::Io(_)),
                FrameRead::BadMagic(got) => r matches Err(e) && e == (WireError::BadMagic {
                    got,
                    expected: MAGIC,
                }),
                FrameRead::TooLarge(got) => r matches Err(e) && e == (WireError::PayloadTooLarge {
                    got: got as usize,
                    max: MAX_FRAME_PAYLOAD,
                }),
            },
    {
        let magic: u32 = match reader.next_u32() {
            Ok(v) => v,
            Err(e) => return Err(WireError::Io(e)),
        };
        check_magic(magic)?;
        let msg_type: u32 = match reader.next_u32() {
            Ok(v) => v,
            Err(e) => return Err(WireError::Io(e)),
        };
        let word: u32 = match reader.next_u32() {
            Ok(v) => v,
            Err(e) => return Err(WireError::Io(e)),
        };
        let length: usize = check_length(word)?;
        let payload: Vec<u8> = match reader.next_bytes(length) {
            Ok(v) => v,
            Err(e) => return Err(WireError::Io(e)),
        };
        Ok(Frame { magic, msg_type, payload })
    }

    /// Appends the bytes of the frame. A frame with another magic is refused.
    pub fn write_to(&self, writer: &mut Vec<u8>) -> (r: Result<(), WireError>)
        ensures
            match r {
                Ok(()) => self.magic == MAGIC && final(writer)@ == old(writer)@ + frame_bytes(
                    self@,
                ),
                Err(e) => {
                    &&& self.magic != MAGIC
                    &&& e == (WireError::BadMagic { got: self.magic, expected: MAGIC })
                    &&& final(writer)@ == old(writer)@
                },
            },
    {
        check_magic(self.magic)?;
        put_u32(writer, self.magic);
        put_u32(writer, self.msg_type);
        put_u32(writer, self.payload.len() as u32);
        put_bytes(writer, self.payload.as_slice());
        assert(writer@ =~= old(writer)@ + frame_bytes(self@));
        Ok(())
    }
}

/// The frame of a HELLO.
pub fn frame_hello(h: &Hello) -> (r: Ds4Result<Frame>)
    ensures
        framed(r, msg::HELLO, hello_bytes(*h)),
        r is Ok,
{
    proof {
        lemma_le32(h.wire_version);
        lemma_le32(h.n_layers);
        lemma_le32(h.head_elements);
    }
    Frame::new(msg::HELLO, h.encode())
}

/// The frame of a WORK.
pub fn frame_work(w: &Work) -> (r: Ds4Result<Frame>)
    ensures
        framed(r, msg::WORK, work_bytes(w@)),
{
    Frame::new(msg::WORK, w.encode())
}

/// The frame of a RESULT.
pub fn frame_result(m: &ResultMsg) -> (r: Ds4Result<Frame>)
    ensures
        framed(r, msg::RESULT, result_bytes(m@)),
{
    Frame::new(msg::RESULT, m.encode())
}

/// The frame of a SNAPSHOT_BEGIN.
pub fn frame_snapshot_begin(b: &SnapshotBegin) -> (r: Ds4Result<Frame>)
    ensures
        framed(r, msg::SNAPSHOT_BEGIN, begin_bytes(b@)),
{
    Frame::new(msg::SNAPSHOT_BEGIN, b.encode())
}

/// The frame of a SNAPSHOT_CHUNK.
pub fn frame_snapshot_chunk(c: &SnapshotChunk) -> (r: Ds4Result<Frame>)
    ensures
        if c@.payload.len() <= SNAPSHOT_CHUNK_BYTES {
            r is Ok && framed(r, msg::SNAPSHOT_CHUNK, chunk_bytes(c@))
        } else {
            r matches Err(e) && is_too_large(
                e,
                "SNAPSHOT_CHUNK payload too large: "@,
                c@.payload.len(),
                SNAPSHOT_CHUNK_BYTES as nat,
            )
        },
{
    let payload: Vec<u8> = c.encode()?;
    proof {
        lemma_le64(c@.snapshot_id);
        lemma_le32(c@.chunk_index);
        lemma_le32(c@.payload.len() as u32);
    }
    Frame::new(msg::SNAPSHOT_CHUNK, payload)
}

/// The frame of a SNAPSHOT_END.
pub fn frame_snapshot_end(e: &SnapshotEnd) -> (r: Ds4Result<Frame>)
    ensures
        framed(r, msg::SNAPSHOT_END, end_bytes(*e)),
        r is Ok,
{
    proof {
        lemma_le64(e.snapshot_id);
        lemma_le64(e.received_bytes);
        lemma_le32(e.received_chunks);
        lemma_le32(e.crc32);
    }
    Frame::new(msg::SNAPSHOT_END, e.encode())
}

/// The frame of a SNAPSHOT_REQ.
pub fn frame_snapshot_req(q: &SnapshotReq) -> (r: Ds4Result<Frame>)
    ensures
        framed(r, msg::SNAPSHOT_REQ, req_bytes(*q)),
        r is Ok,
{
    proof {
        lemma_le64(q.snapshot_id);
        lemma_le64(q.last_known_version);
    }
    Frame::new(msg::SNAPSHOT_REQ, q.encode())
}

/// A decoded payload.
#[derive(Debug, Clone, PartialEq)]
pub enum Decoded {
    Hello(Hello),
    Work(Work),
    Result(ResultMsg),
    SnapshotBegin(SnapshotBegin),
    SnapshotChunk(SnapshotChunk),
    SnapshotEnd(SnapshotEnd),
    SnapshotReq(SnapshotReq),
}

/// Reads a payload according to its message type.
pub fn decode_payload(msg_type: u32, payload: &[u8]) -> (r: Ds4Result<Decoded>)
    ensures
        msg_type == msg::HELLO ==> match parse_hello(payload@) {
            Parsed::Done(h, _) => r matches Ok(Decoded::Hello(x)) && x == h,
            Parsed::BadTag(b) => r matches Err(e) && bad_role(e, b),
            _ => r matches Err(e) && e.is(
                Ds4ErrorKind::InvalidArgument,
                "HELLO payload too short: "@ + dec(payload@.len()) + " bytes (need 14)"@,
            ),
        },
        msg_type == msg::WORK ==> match parse_work(payload@) {
            Parsed::Done(w, _) => r matches Ok(Decoded::Work(x)) && x@ == w,
            Parsed::BadTag(b) => r matches Err(e) && bad_dtype(e, b),
            _ => r matches Err(e) && is_io_error(e),
        },
        msg_type == msg::RESULT ==> match parse_result(payload@) {
            Parsed::Done(v, _) => {
                &&& r matches Ok(Decoded::Result(x))
                &&& x.req_id == v.req_id
                &&& x.ok == v.ok
                &&& is_error_text(x.error, v.error)
                &&& x.output_hc@ == v.output_hc
                &&& x.output_logits@ == v.output_logits
            },
            Parsed::BadTag(b) => r matches Err(e) && bad_dtype(e, b),
            _ => r matches Err(e) && is_io_error(e),
        },
        msg_type == msg::SNAPSHOT_BEGIN ==> match parse_begin(payload@) {
            Parsed::Done(v, _) => r matches Ok(Decoded::SnapshotBegin(x)) && x@ == v,
            _ => r matches Err(e) && is_io_error(e),
        },
        msg_type == msg::SNAPSHOT_CHUNK ==> match parse_chunk(payload@) {
            Parsed::Done(v, _) => r matches Ok(Decoded::SnapshotChunk(x)) && x@ == v,
            Parsed::TooLong(n) => r matches Err(e) && is_too_large(
                e,
                "SNAPSHOT_CHUNK payload too large on decode: "@,
                n,
                SNAPSHOT_CHUNK_BYTES as nat,
            ),
            _ => r matches Err(e) && is_io_error(e),
        },
        msg_type == msg::SNAPSHOT_END ==> match parse_end(payload@) {
            Parsed::Done(v, _) => r matches Ok(Decoded::SnapshotEnd(x)) && x == v,
            _ => r matches Err(e) && is_io_error(e),
        },
        msg_type == msg::SNAPSHOT_REQ ==> match parse_req(payload@) {
            Parsed::Done(v, _) => r matches Ok(Decoded::SnapshotReq(x)) && x == v,
            _ => r matches Err(e) && is_io_error(e),
        },
        !known_message(msg_type) ==> (r matches Err(e) && e.is(
            Ds4ErrorKind::InvalidArgument,
            "unknown message type "@ + dec(msg_type as nat),
        )),
{
    if msg_type == msg::HELLO {
        let m = Hello::decode(payload)?;
        Ok(Decoded::Hello(m))
    } else if msg_type == msg::WORK {
        let m = Work::decode(payload)?;
        Ok(Decoded::Work(m))
    } else if msg_type == msg::RESULT {
        let m = ResultMsg::decode(payload)?;
        Ok(Decoded::Result(m))
    } else if msg_type == msg::SNAPSHOT_BEGIN {
        let m = SnapshotBegin::decode(payload)?;
        Ok(Decoded::SnapshotBegin(m))
    } else if msg_type == msg::SNAPSHOT_CHUNK {
        let m = SnapshotChunk::decode(payload)?;
        Ok(Decoded::SnapshotChunk(m))
    } else if msg_type == msg::SNAPSHOT_END {
        let m = SnapshotEnd::decode(payload)?;
        Ok(Decoded::SnapshotEnd(m))
    } else if msg_type == msg::SNAPSHOT_REQ {
        let m = SnapshotReq::decode(payload)?;
        Ok(Decoded::SnapshotReq(m))
    } else {
        let mut m: String = String::from_str("unknown message type ");
        push_dec(&mut m, msg_type as u64);
        Err(Ds4Error::new(Ds4ErrorKind::InvalidArgument, m))
    }
}

/// The message type has a payload format.
pub open spec fn known_message(msg_type: u32) -> bool {
    msg_type == msg::HELLO || msg_type == msg::WORK || msg_type == msg::RESULT || msg_type
        == msg::SNAPSHOT_BEGIN || msg_type == msg::SNAPSHOT_CHUNK || msg_type == msg::SNAPSHOT_END
        || msg_type == msg::SNAPSHOT_REQ
}

// ---- Laws of the layout on the wire ----

/// The word `v` stands at `p`, lowest byte first.
pub open spec fn word_stands(s: Seq<u8>, p: int, v: u32) -> bool {
    0 <= p && p + 4 <= s.len() && s.subrange(p, p + 4) == spec_u32_to_le_bytes(v)
}

/// The long word `v` stands at `p`, lowest byte first.
pub open spec fn long_stands(s: Seq<u8>, p: int, v: u64) -> bool {
    0 <= p && p + 8 <= s.len() && s.subrange(p, p + 8) == spec_u64_to_le_bytes(v)
}

/// A frame is the magic, the message type, the length of the payload, and the payload.
pub proof fn law_frame_layout(f: FrameView)
    requires
        f.magic == MAGIC,
        f.payload.len() <= u32::MAX,
    ensures
        ({
            let s = frame_bytes(f);
            &&& s.len() == 12 + f.payload.len()
            &&& word_stands(s, 0, 0x4453_3444)
            &&& word_stands(s, 4, f.msg_type)
            &&& word_stands(s, 8, f.payload.len() as u32)
            &&& s.skip(12) == f.payload
        }),
{
    let s = frame_bytes(f);
    lemma_le32(f.magic);
    lemma_le32(f.msg_type);
    lemma_le32(f.payload.len() as u32);
    assert(s.subrange(0, 4) =~= le32(f.magic));
    assert(s.subrange(4, 8) =~= le32(f.msg_type));
    assert(s.subrange(8, 12) =~= le32(f.payload.len() as u32));
    assert(s.skip(12) =~= f.payload);
}

/// A HELLO is 14 bytes: the version, the role, the number of layers, the number of elements of all
/// heads, and the activation width.
pub proof fn law_hello_layout(h: Hello)
    ensures
        ({
            let s = hello_bytes(h);
            &&& s.len() == 14
            &&& word_stands(s, 0, h.wire_version)
            &&& s[4] == match h.role {
                Ds4DistributedRole::Standalone => 0u8,
                Ds4DistributedRole::Coordinator => 1u8,
                Ds4DistributedRole::Worker => 2u8,
            }
            &&& word_stands(s, 5, h.n_layers)
            &&& word_stands(s, 9, h.head_elements)
            &&& s[13] == h.activation_bits
        }),
{
    let s = hello_bytes(h);
    lemma_le32(h.wire_version);
    lemma_le32(h.n_layers);
    lemma_le32(h.head_elements);
    assert(s.subrange(0, 4) =~= le32(h.wire_version));
    assert(s.subrange(5, 9) =~= le32(h.n_layers));
    assert(s.subrange(9, 13) =~= le32(h.head_elements));
}

/// A tensor is the number of its element type, the number of its dimensions, each dimension as a
/// long word, the length of its data as a long word, and the data.
pub proof fn law_tensor_layout(t: TensorView, i: int)
    requires
        wire_tensor(t),
        0 <= i < t.dims.len(),
    ensures
        ({
            let s = tensor_bytes(t);
            let q = 5 + 8 * t.dims.len() as int;
            &&& s.len() == q + 8 + t.data.len()
            &&& s[0] == match t.dtype {
                DType::F32 => 0u8,
                DType::F16 => 1u8,
                DType::BF16 => 2u8,
                DType::F64 => 3u8,
                DType::I8 => 4u8,
                DType::U8 => 5u8,
                DType::I64 => 6u8,
                DType::U32 => 7u8,
                DType::U64 => 8u8,
            }
            &&& word_stands(s, 1, t.dims.len() as u32)
            &&& long_stands(s, 5 + 8 * i, t.dims[i] as u64)
            &&& long_stands(s, q, t.data.len() as u64)
            &&& s.skip(q + 8) == t.data
        }),
{
    let s = tensor_bytes(t);
    let q = 5 + 8 * t.dims.len() as int;
    lemma_le32(t.dims.len() as u32);
    lemma_le64(t.data.len() as u64);
    lemma_le_sizes(t.dims);
    assert(s.subrange(1, 5) =~= le32(t.dims.len() as u32));
    assert(s.subrange(5 + 8 * i, 5 + 8 * i + 8) =~= le_sizes(t.dims).subrange(8 * i, 8 * i + 8));
    assert(s.subrange(q, q + 8) =~= le64(t.data.len() as u64));
    lemma_le64(t.dims[i] as u64);
    assert(s.skip(q + 8) =~= t.data);
}

/// A WORK is the request id, the number of tokens, the tokens, the position of the first of them,
/// the first layer, the layer behind the last, and the hidden state.
pub proof fn law_work_layout(w: WorkView, i: int)
    requires
        w.tokens.len() <= u32::MAX,
        0 <= i < w.tokens.len(),
    ensures
        ({
            let s = work_bytes(w);
            let q = 12 + 4 * w.tokens.len() as int;
            &&& long_stands(s, 0, w.req_id)
            &&& word_stands(s, 8, w.tokens.len() as u32)
            &&& word_stands(s, 12 + 4 * i, w.tokens[i])
            &&& long_stands(s, q, w.pos0 as u64)
            &&& long_stands(s, q + 8, w.layer_start as u64)
            &&& long_stands(s, q + 16, w.layer_end as u64)
            &&& s.skip(q + 24) == tensor_bytes(w.input_hc)
        }),
{
    let s = work_bytes(w);
    let q = 12 + 4 * w.tokens.len() as int;
    lemma_le64(w.req_id);
    lemma_le32(w.tokens.len() as u32);
    lemma_le_words(w.tokens);
    lemma_le32(w.tokens[i]);
    lemma_le64(w.pos0 as u64);
    lemma_le64(w.layer_start as u64);
    lemma_le64(w.layer_end as u64);
    assert(s.subrange(0, 8) =~= le64(w.req_id));
    assert(s.subrange(8, 12) =~= le32(w.tokens.len() as u32));
    assert(s.subrange(12 + 4 * i, 12 + 4 * i + 4) =~= le_words(w.tokens).subrange(
        4 * i,
        4 * i + 4,
    ));
    assert(s.subrange(q, q + 8) =~= le64(w.pos0 as u64));
    assert(s.subrange(q + 8, q + 16) =~= le64(w.layer_start as u64));
    assert(s.subrange(q + 16, q + 24) =~= le64(w.layer_end as u64));
    assert(s.skip(q + 24) =~= tensor_bytes(w.input_hc));
}

/// A RESULT is the request id, a 1 or a 0 for success or failure, the length of the error text and
/// the text (a length of all ones where there is none), the hidden state, and the logits.
pub proof fn law_result_layout(r: ResultView)
    requires
        r.error matches Some(b) ==> b.len() < 0xFFFF_FFFF,
    ensures
        ({
            let s = result_bytes(r);
            let n = match r.error {
                Some(b) => b.len() as int,
                None => 0,
            };
            &&& long_stands(s, 0, r.req_id)
            &&& s[8] == if r.ok {
                1u8
            } else {
                0u8
            }
            &&& r.error is None ==> word_stands(s, 9, 0xFFFF_FFFF)
            &&& r.error matches Some(b) ==> word_stands(s, 9, b.len() as u32) && s.subrange(
                13,
                13 + n,
            ) == b
            &&& s.skip(13 + n) == tensor_bytes(r.output_hc) + tensor_bytes(r.output_logits)
        }),
{
    let s = result_bytes(r);
    lemma_le64(r.req_id);
    assert(s.subrange(0, 8) =~= le64(r.req_id));
    match r.error {
        Some(b) => {
            lemma_le32(b.len() as u32);
            assert(s.subrange(9, 13) =~= le32(b.len() as u32));
            assert(s.subrange(13, 13 + b.len() as int) =~= b);
            assert(s.skip(13 + b.len() as int) =~= tensor_bytes(r.output_hc) + tensor_bytes(
                r.output_logits,
            ));
        },
        None => {
            lemma_le32(0xFFFF_FFFF);
            assert(s.subrange(9, 13) =~= le32(0xFFFF_FFFF));
            assert(s.skip(13) =~= tensor_bytes(r.output_hc) + tensor_bytes(r.output_logits));
        },
    }
}

/// The messages of a snapshot: its id first, then, of the first one, the size, the number of chunks
/// and the metadata; of a chunk its place and its bytes; of the last one what was received and the
/// checksum; and of a request the version that is known.
pub proof fn law_snapshot_layout(
    b: BeginView,
    c: ChunkView,
    e: SnapshotEnd,
    r: SnapshotReq,
)
    requires
        b.metadata.len() <= u32::MAX,
        c.payload.len() <= u32::MAX,
    ensures
        ({
            let s = begin_bytes(b);
            &&& long_stands(s, 0, b.snapshot_id)
            &&& long_stands(s, 8, b.total_bytes)
            &&& word_stands(s, 16, b.chunk_count)
            &&& word_stands(s, 20, b.metadata.len() as u32)
            &&& s.skip(24) == b.metadata
        }),
        ({
            let s = chunk_bytes(c);
            &&& long_stands(s, 0, c.snapshot_id)
            &&& word_stands(s, 8, c.chunk_index)
            &&& word_stands(s, 12, c.payload.len() as u32)
            &&& s.skip(16) == c.payload
        }),
        ({
            let s = end_bytes(e);
            &&& s.len() == 24
            &&& long_stands(s, 0, e.snapshot_id)
            &&& long_stands(s, 8, e.received_bytes)
            &&& word_stands(s, 16, e.received_chunks)
            &&& word_stands(s, 20, e.crc32)
        }),
        ({
            let s = req_bytes(r);
            &&& s.len() == 16
            &&& long_stands(s, 0, r.snapshot_id)
            &&& long_stands(s, 8, r.last_known_version)
        }),
{
    let s = begin_bytes(b);
    lemma_le64(b.snapshot_id);
    lemma_le64(b.total_bytes);
    lemma_le32(b.chunk_count);
    lemma_le32(b.metadata.len() as u32);
    assert(s.subrange(0, 8) =~= le64(b.snapshot_id));
    assert(s.subrange(8, 16) =~= le64(b.total_bytes));
    assert(s.subrange(16, 20) =~= le32(b.chunk_count));
    assert(s.subrange(20, 24) =~= le32(b.metadata.len() as u32));
    assert(s.skip(24) =~= b.metadata);
    lemma_chunk_layout(c);
    lemma_end_layout(e, r);
}

proof fn lemma_chunk_layout(c: ChunkView)
    requires
        c.payload.len() <= u32::MAX,
    ensures
        ({
            let s = chunk_bytes(c);
            &&& long_stands(s, 0, c.snapshot_id)
            &&& word_stands(s, 8, c.chunk_index)
            &&& word_stands(s, 12, c.payload.len() as u32)
            &&& s.skip(16) == c.payload
        }),
{
    let s = chunk_bytes(c);
    lemma_le64(c.snapshot_id);
    lemma_le32(c.chunk_index);
    lemma_le32(c.payload.len() as u32);
    assert(s.subrange(0, 8) =~= le64(c.snapshot_id));
    assert(s.subrange(8, 12) =~= le32(c.chunk_index));
    assert(s.subrange(12, 16) =~= le32(c.payload.len() as u32));
    assert(s.skip(16) =~= c.payload);
}

proof fn lemma_end_layout(e: SnapshotEnd, r: SnapshotReq)
    ensures
        ({
            let s = end_bytes(e);
            &&& s.len() == 24
            &&& long_stands(s, 0, e.snapshot_id)
            &&& long_stands(s, 8, e.received_bytes)
            &&& word_stands(s, 16, e.received_chunks)
            &&& word_stands(s, 20, e.crc32)
        }),
        ({
            let s = req_bytes(r);
            &&& s.len() == 16
            &&& long_stands(s, 0, r.snapshot_id)
            &&& long_stands(s, 8, r.last_known_version)
        }),
{
    let s = end_bytes(e);
    lemma_le64(e.snapshot_id);
    lemma_le64(e.received_bytes);
    lemma_le32(e.received_chunks);
    lemma_le32(e.crc32);
    assert(s.subrange(0, 8) =~= le64(e.snapshot_id));
    assert(s.subrange(8, 16) =~= le64(e.received_bytes));
    assert(s.subrange(16, 20) =~= le32(e.received_chunks));
    assert(s.subrange(20, 24) =~= le32(e.crc32));
    let t = req_bytes(r);
    lemma_le64(r.snapshot_id);
    lemma_le64(r.last_known_version);
    assert(t.subrange(0, 8) =~= le64(r.snapshot_id));
    assert(t.subrange(8, 16) =~= le64(r.last_known_version));
}

/// The message types that stand in a frame.
pub proof fn law_message_types()
    ensures
        msg::HELLO == 1,
        msg::WORK == 3,
        msg::RESULT == 4,
        msg::SNAPSHOT_BEGIN == 5,
        msg::SNAPSHOT_CHUNK == 6,
        msg::SNAPSHOT_END == 7,
        msg::SNAPSHOT_REQ == 8,
{
}

} // verus!
