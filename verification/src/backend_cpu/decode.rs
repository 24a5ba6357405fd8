//! Tensor bytes: which bytes of a tensor belong to which element or block.
//!
//! Elements are handed out as bit patterns, and blocks as their parts. What a block's scales and
//! codes come to is the caller's.

use vstd::prelude::*;
use vstd::string::StringExecFns;

use crate::gguf::{
    block_bytes, block_elements, blocks_needed, count_blocks, dtype_name, element_count,
    numel, GgufDType, TensorDescriptor,
};
use crate::half::{half_to_single, same_number};
use crate::le::{unpack_words, words_of};
use crate::slices::copy_bytes;
use crate::text::{dec, push_dec};
use crate::types::{fault, Ds4Error, Ds4ErrorKind, Ds4Result, Fault};

verus! {

/// A range of bytes in a block.
#[derive(Debug, Clone, Copy, PartialEq, Eq, Structural)]
pub struct Field {
    pub at: usize,
    pub len: usize,
}

/// Where the parts of a block stand.
#[derive(Debug, Clone, Copy, PartialEq, Eq, Structural)]
pub struct BlockLayout {
    pub bytes: usize,
    /// The half-precision scale.
    pub d: usize,
    /// The half-precision offset; where there is none, the scale again.
    pub dmin: usize,
    pub scales: Field,
    pub hmask: Field,
    pub qs: Field,
}

/// The parts of a block. Half-precision numbers are bit patterns.
#[derive(Debug)]
pub struct QuantBlock {
    pub d: u16,
    pub dmin: u16,
    pub scales: Vec<u8>,
    pub hmask: Vec<u8>,
    pub qs: Vec<u8>,
}

/// The blocks of a tensor, and the number of elements that count.
#[derive(Debug)]
pub struct QuantTensor {
    pub n: usize,
    pub blocks: Vec<QuantBlock>,
}

/// The layout of a block of a format that has blocks.
pub open spec fn layout_of(d: GgufDType) -> Option<BlockLayout> {
    match d {
        GgufDType::Q8_0 => Some(
            BlockLayout {
                bytes: 34,
                d: 0,
                dmin: 0,
                scales: Field { at: 0, len: 0 },
                hmask: Field { at: 0, len: 0 },
                qs: Field { at: 2, len: 32 },
            },
        ),
        GgufDType::Q4_K => Some(
            BlockLayout {
                bytes: 144,
                d: 0,
                dmin: 2,
                scales: Field { at: 4, len: 12 },
                hmask: Field { at: 0, len: 0 },
                qs: Field { at: 16, len: 128 },
            },
        ),
        GgufDType::Q3_K => Some(
            BlockLayout {
                bytes: 110,
                d: 108,
                dmin: 108,
                scales: Field { at: 96, len: 12 },
                hmask: Field { at: 0, len: 32 },
                qs: Field { at: 32, len: 64 },
            },
        ),
        GgufDType::Q2_K => Some(
            BlockLayout {
                bytes: 84,
                d: 80,
                dmin: 82,
                scales: Field { at: 0, len: 16 },
                hmask: Field { at: 0, len: 0 },
                qs: Field { at: 16, len: 64 },
            },
        ),
        GgufDType::Iq2Xxs => Some(
            BlockLayout {
                bytes: 66,
                d: 0,
                dmin: 0,
                scales: Field { at: 0, len: 0 },
                hmask: Field { at: 0, len: 0 },
                qs: Field { at: 2, len: 64 },
            },
        ),
        _ => None,
    }
}

/// The bytes of a part of block `b`.
pub open spec fn field_of(bytes: Seq<u8>, l: BlockLayout, b: int, f: Field) -> Seq<u8> {
    bytes.subrange(b * l.bytes + f.at, b * l.bytes + f.at + f.len)
}

/// The two bytes at `p`, lowest first.
pub open spec fn u16_at(s: Seq<u8>, p: int) -> u16 {
    (s[p] + 256 * s[p + 1]) as u16
}

/// The parts of block `b`.
pub open spec fn is_block(q: QuantBlock, bytes: Seq<u8>, l: BlockLayout, b: int) -> bool {
    &&& q.d == u16_at(bytes, b * l.bytes + l.d)
    &&& q.dmin == u16_at(bytes, b * l.bytes + l.dmin)
    &&& q.scales@ == field_of(bytes, l, b, l.scales)
    &&& q.hmask@ == field_of(bytes, l, b, l.hmask)
    &&& q.qs@ == field_of(bytes, l, b, l.qs)
}

/// The parts of a block lie inside it, and none shares a byte with another.
pub proof fn law_layout_fits(d: GgufDType)
    ensures
        layout_of(d) matches Some(l) ==> {
            &&& l.bytes == block_bytes(d)
            &&& l.d + 2 <= l.bytes
            &&& l.dmin + 2 <= l.bytes
            &&& l.scales.at + l.scales.len <= l.bytes
            &&& l.hmask.at + l.hmask.len <= l.bytes
            &&& l.qs.at + l.qs.len <= l.bytes
            &&& 2 + (if l.dmin != l.d {
                2int
            } else {
                0
            }) + l.scales.len + l.hmask.len + l.qs.len == l.bytes
            &&& (l.scales.len > 0 ==> l.scales.at + l.scales.len <= l.qs.at || l.qs.at + l.qs.len
                <= l.scales.at)
            &&& (l.hmask.len > 0 ==> l.hmask.at + l.hmask.len <= l.qs.at && l.hmask.at
                + l.hmask.len <= l.scales.at)
        },
{
}

/// The layout of a block.
pub fn block_layout(d: GgufDType) -> (r: Option<BlockLayout>)
    ensures
        r == layout_of(d),
{
    match d {
        GgufDType::Q8_0 => Some(
            BlockLayout {
                bytes: 34,
                d: 0,
                dmin: 0,
                scales: Field { at: 0, len: 0 },
                hmask: Field { at: 0, len: 0 },
                qs: Field { at: 2, len: 32 },
            },
        ),
        GgufDType::Q4_K => Some(
            BlockLayout {
                bytes: 144,
                d: 0,
                dmin: 2,
                scales: Field { at: 4, len: 12 },
                hmask: Field { at: 0, len: 0 },
                qs: Field { at: 16, len: 128 },
            },
        ),
        GgufDType::Q3_K => Some(
            BlockLayout {
                bytes: 110,
                d: 108,
                dmin: 108,
                scales: Field { at: 96, len: 12 },
                hmask: Field { at: 0, len: 32 },
                qs: Field { at: 32, len: 64 },
            },
        ),
        GgufDType::Q2_K => Some(
            BlockLayout {
                bytes: 84,
                d: 80,
                dmin: 82,
                scales: Field { at: 0, len: 16 },
                hmask: Field { at: 0, len: 0 },
                qs: Field { at: 16, len: 64 },
            },
        ),
        GgufDType::Iq2Xxs => Some(
            BlockLayout {
                bytes: 66,
                d: 0,
                dmin: 0,
                scales: Field { at: 0, len: 0 },
                hmask: Field { at: 0, len: 0 },
                qs: Field { at: 2, len: 64 },
            },
        ),
        _ => None,
    }
}

/// The fault of a tensor in another format.
pub open spec fn wrong_format(expected: GgufDType, got: GgufDType) -> Option<Fault> {
    fault(
        Ds4ErrorKind::Model,
        "expected "@ + dtype_name(expected) + " tensor, got "@ + dtype_name(got),
    )
}

/// The fault of a tensor with too few bytes.
pub open spec fn too_few_bytes(format: GgufDType, len: nat, needed: nat) -> Option<Fault> {
    fault(
        Ds4ErrorKind::Model,
        dtype_name(format) + " tensor bytes "@ + dec(len) + " < needed "@ + dec(needed),
    )
}

/// Number of bytes that a tensor of `n` elements takes.
pub open spec fn bytes_needed(format: GgufDType, n: nat) -> nat {
    blocks_needed(n, block_elements(format)) * block_bytes(format)
}

/// What stands against reading a tensor in a format.
pub open spec fn tensor_fault(desc: TensorDescriptor, len: nat, expected: GgufDType) -> Option<
    Fault,
> {
    if desc.dtype != expected {
        wrong_format(expected, desc.dtype)
    } else if len < bytes_needed(expected, element_count(desc.dims@)) {
        too_few_bytes(expected, len, bytes_needed(expected, element_count(desc.dims@)))
    } else {
        None
    }
}

/// The elements and bytes of a tensor can be counted on this machine.
pub open spec fn tensor_countable(desc: TensorDescriptor) -> bool {
    &&& element_count(desc.dims@) <= usize::MAX
    &&& bytes_needed(desc.dtype, element_count(desc.dims@)) <= usize::MAX
}

/// Checks the format and the length of a tensor, and counts its elements and blocks.
pub fn quant_shape(desc: &TensorDescriptor, len: usize, expected: GgufDType) -> (r: Ds4Result<
    (usize, usize),
>)
    requires
        tensor_countable(*desc),
    ensures
        match tensor_fault(*desc, len as nat, expected) {
            Some(f) => r matches Err(e) && e.says(f),
            None => {
                &&& r matches Ok((n, blocks))
                &&& n == element_count(desc.dims@)
                &&& blocks == blocks_needed(n as nat, block_elements(expected))
            },
        },
{
    if desc.dtype != expected {
        let mut m: String = String::from_str("expected ");
        m.append(expected.name());
        m.append(" tensor, got ");
        m.append(desc.dtype.name());
        return Err(Ds4Error::new(Ds4ErrorKind::Model, m));
    }
    let n: u64 = numel(desc.dims.as_slice());
    let blocks: u64 = count_blocks(n, expected.block_size());
    let needed: u64 = blocks * expected.byte_size();
    if (len as u64) < needed {
        let mut m: String = String::from_str(expected.name());
        m.append(" tensor bytes ");
        push_dec(&mut m, len as u64);
        m.append(" < needed ");
        push_dec(&mut m, needed);
        return Err(Ds4Error::new(Ds4ErrorKind::Model, m));
    }
    Ok((n as usize, blocks as usize))
}

/// The elements of a single-precision tensor. Bytes after the last element are ignored.
pub fn decode_f32(desc: &TensorDescriptor, bytes: &[u8]) -> (r: Ds4Result<Vec<u32>>)
    requires
        tensor_countable(*desc),
    ensures
        match tensor_fault(*desc, bytes@.len(), GgufDType::F32) {
            Some(f) => r matches Err(e) && e.says(f),
            None => {
                &&& r matches Ok(v)
                &&& v@.len() == element_count(desc.dims@)
                &&& v@ == words_of(bytes@.subrange(0, 4 * element_count(desc.dims@) as int))
            },
        },
{
    let (n, blocks): (usize, usize) = quant_shape(desc, bytes.len(), GgufDType::F32)?;
    assert(blocks_needed(n as nat, 1) == n);
    let used: Vec<u8> = copy_bytes(bytes, 0, n * 4);
    Ok(unpack_words(used.as_slice()))
}

fn half_at(bytes: &[u8], p: usize) -> (r: u16)
    requires
        p + 2 <= bytes@.len(),
    ensures
        r == u16_at(bytes@, p as int),
{
    bytes[p] as u16 + 256 * bytes[p + 1] as u16
}

/// The elements of a half-precision tensor, as single-precision patterns of the same numbers. Bytes
/// after the last element are ignored.
pub fn decode_f16(desc: &TensorDescriptor, bytes: &[u8]) -> (r: Ds4Result<Vec<u32>>)
    requires
        tensor_countable(*desc),
    ensures
        match tensor_fault(*desc, bytes@.len(), GgufDType::F16) {
            Some(f) => r matches Err(e) && e.says(f),
            None => {
                &&& r matches Ok(v)
                &&& v@.len() == element_count(desc.dims@)
                &&& forall|i: int|
                    0 <= i < v@.len() ==> same_number(u16_at(bytes@, 2 * i), #[trigger] v@[i])
            },
        },
{
    let (n, blocks): (usize, usize) = quant_shape(desc, bytes.len(), GgufDType::F16)?;
    assert(blocks_needed(n as nat, 1) == n);
    let mut v: Vec<u32> = Vec::new();
    let mut i: usize = 0;
    while i < n
        invariant
            i <= n,
            2 * n <= bytes@.len(),
            v@.len() == i,
            forall|j: int| 0 <= j < i ==> same_number(u16_at(bytes@, 2 * j), #[trigger] v@[j]),
        decreases n - i,
    {
        assert(bytes@.len() == bytes.len());
        v.push(half_to_single(half_at(bytes, 2 * i)));
        i += 1;
    }
    Ok(v)
}

fn read_block(bytes: &[u8], l: BlockLayout, b: usize) -> (q: QuantBlock)
    requires
        b * l.bytes + l.bytes <= bytes@.len(),
        l.d + 2 <= l.bytes,
        l.dmin + 2 <= l.bytes,
        l.scales.at + l.scales.len <= l.bytes,
        l.hmask.at + l.hmask.len <= l.bytes,
        l.qs.at + l.qs.len <= l.bytes,
    ensures
        is_block(q, bytes@, l, b as int),
{
    assert(bytes@.len() == bytes.len());
    assert(0 <= b * l.bytes) by (nonlinear_arith);
    let off: usize = b * l.bytes;
    QuantBlock {
        d: half_at(bytes, off + l.d),
        dmin: half_at(bytes, off + l.dmin),
        scales: copy_bytes(bytes, off + l.scales.at, off + l.scales.at + l.scales.len),
        hmask: copy_bytes(bytes, off + l.hmask.at, off + l.hmask.at + l.hmask.len),
        qs: copy_bytes(bytes, off + l.qs.at, off + l.qs.at + l.qs.len),
    }
}

/// The blocks of a tensor in a format that has blocks. Bytes after the last block are ignored.
pub fn decode_blocks(desc: &TensorDescriptor, bytes: &[u8], format: GgufDType) -> (r: Ds4Result<
    QuantTensor,
>)
    requires
        tensor_countable(*desc),
        layout_of(format) is Some,
    ensures
        match tensor_fault(*desc, bytes@.len(), format) {
            Some(f) => r matches Err(e) && e.says(f),
            None => {
                &&& r matches Ok(t)
                &&& t.n == element_count(desc.dims@)
                &&& t.blocks@.len() == blocks_needed(t.n as nat, block_elements(format))
                &&& forall|b: int|
                    0 <= b < t.blocks@.len() ==> is_block(
                        #[trigger] t.blocks@[b],
                        bytes@,
                        layout_of(format).unwrap(),
                        b,
                    )
            },
        },
{
    let (n, count): (usize, usize) = quant_shape(desc, bytes.len(), format)?;
    let mut blocks: Vec<QuantBlock> = Vec::new();
    match block_layout(format) {
        None => {},
        Some(l) => {
            proof {
                law_layout_fits(format);
            }
            let mut b: usize = 0;
            while b < count
                invariant
                    b <= count,
                    count * l.bytes <= bytes@.len(),
                    l.d + 2 <= l.bytes,
                    l.dmin + 2 <= l.bytes,
                    l.scales.at + l.scales.len <= l.bytes,
                    l.hmask.at + l.hmask.len <= l.bytes,
                    l.qs.at + l.qs.len <= l.bytes,
                    blocks@.len() == b,
                    forall|j: int|
                        0 <= j < b ==> is_block(#[trigger] blocks@[j], bytes@, l, j),
                decreases count - b,
            {
                assert(b * l.bytes + l.bytes <= count * l.bytes) by (nonlinear_arith)
                    requires
                        b < count,
                ;
                blocks.push(read_block(bytes, l, b));
                b += 1;
            }
        },
    }
    Ok(QuantTensor { n, blocks })
}

/// Appends the elements of a block that still count.
pub fn extend_logical(out: &mut Vec<u32>, scratch: &[u32], n: usize)
    ensures
        old(out)@.len() >= n ==> final(out)@ == old(out)@,
        old(out)@.len() < n ==> final(out)@ == old(out)@ + scratch@.take(
            if n - old(out)@.len() < scratch@.len() {
                n - old(out)@.len()
            } else {
                scratch@.len() as int
            },
        ),
{
    let have: usize = out.len();
    if have >= n {
        return;
    }
    let left: usize = n - have;
    let take: usize = if left < scratch.len() {
        left
    } else {
        scratch.len()
    };
    let mut i: usize = 0;
    let ghost before = out@;
    while i < take
        invariant
            i <= take <= scratch@.len(),
            out@ == before + scratch@.take(i as int),
        decreases take - i,
    {
        out.push(scratch[i]);
        i += 1;
        assert(out@ =~= before + scratch@.take(i as int));
    }
}

/// The elements of blocks, one block after the other.
pub open spec fn joined(blocks: Seq<Vec<u32>>) -> Seq<u32>
    decreases blocks.len(),
{
    if blocks.len() == 0 {
        Seq::empty()
    } else {
        joined(blocks.drop_last()) + blocks.last()@
    }
}

/// The first `n` elements, or all of them where there are fewer.
pub open spec fn first_elements(s: Seq<u32>, n: nat) -> Seq<u32> {
    if s.len() < n {
        s
    } else {
        s.take(n as int)
    }
}

/// There are exactly the blocks of a tensor of `n` elements, and each of them is full.
pub open spec fn blocks_full(blocks: Seq<Vec<u32>>, n: nat, format: GgufDType) -> bool {
    &&& blocks.len() == blocks_needed(n, block_elements(format))
    &&& forall|b: int| 0 <= b < blocks.len() ==> (#[trigger] blocks[b])@.len() == block_elements(format)
}

/// Blocks of one size hold that many elements each.
pub proof fn law_joined_len(blocks: Seq<Vec<u32>>, size: nat)
    requires
        forall|b: int| 0 <= b < blocks.len() ==> (#[trigger] blocks[b])@.len() == size,
    ensures
        joined(blocks).len() == blocks.len() * size,
    decreases blocks.len(),
{
    if blocks.len() > 0 {
        let less = blocks.drop_last();
        assert forall|b: int| 0 <= b < less.len() implies (#[trigger] less[b])@.len() == size by {
            assert(less[b] == blocks[b]);
        }
        law_joined_len(less, size);
        assert(blocks.last()@.len() == size);
        let k = less.len();
        assert((k + 1) * size == k * size + size) by (nonlinear_arith);
    } else {
        assert(0 * size == 0) by (nonlinear_arith);
    }
}

/// The full blocks of a tensor give exactly its elements.
pub proof fn law_blocks_full(blocks: Seq<Vec<u32>>, n: nat, format: GgufDType)
    requires
        blocks_full(blocks, n, format),
    ensures
        first_elements(joined(blocks), n).len() == n,
{
    law_joined_len(blocks, block_elements(format));
    crate::gguf::law_blocks_hold_all(n, block_elements(format));
}

/// The first `n` elements of blocks, one block after the other.
pub fn join_blocks(blocks: &[Vec<u32>], n: usize) -> (v: Vec<u32>)
    ensures
        v@ == first_elements(joined(blocks@), n as nat),
{
    let mut v: Vec<u32> = Vec::new();
    let mut b: usize = 0;
    assert(blocks@.take(0) =~= Seq::<Vec<u32>>::empty());
    assert(v@ =~= first_elements(joined(blocks@.take(0)), n as nat));
    while b < blocks.len()
        invariant
            b <= blocks@.len(),
            v@ == first_elements(joined(blocks@.take(b as int)), n as nat),
        decreases blocks@.len() - b,
    {
        let ghost done = joined(blocks@.take(b as int));
        extend_logical(&mut v, blocks[b].as_slice(), n);
        proof {
            let next = blocks@.take(b + 1);
            assert(next.drop_last() =~= blocks@.take(b as int));
            assert(next.last() == blocks@[b as int]);
            assert(joined(next) == done + blocks@[b as int]@);
            assert(v@ =~= first_elements(joined(next), n as nat));
        }
        b += 1;
    }
    assert(blocks@.take(b as int) =~= blocks@);
    v
}

/// The number of elements after `b` blocks of `size` were appended.
pub open spec fn logical_len(n: nat, size: nat, b: nat) -> nat {
    if b * size < n {
        b * size
    } else {
        n
    }
}

/// Appending a block brings the number of elements to that after one block more, and after all
/// blocks of a tensor there are exactly its elements.
pub proof fn law_logical_len(n: nat, size: nat, b: nat)
    requires
        size > 0,
    ensures
        logical_len(n, size, 0) == 0,
        logical_len(n, size, b + 1) == if n - logical_len(n, size, b) < size {
            n
        } else {
            logical_len(n, size, b) + size
        },
        logical_len(n, size, blocks_needed(n, size)) == n,
{
    crate::gguf::law_blocks_hold_all(n, size);
    assert((b + 1) * size == b * size + size) by (nonlinear_arith);
    assert(0 * size == 0) by (nonlinear_arith);
}

// ---- Laws of decoding ----

/// A half-precision pattern as a file holds it, lowest byte first.
pub open spec fn le16(h: u16) -> Seq<u8> {
    seq![(h % 256) as u8, (h / 256) as u8]
}

proof fn lemma_le16(bytes: Seq<u8>, p: int, h: u16)
    requires
        0 <= p,
        p + 2 <= bytes.len(),
        bytes.subrange(p, p + 2) == le16(h),
    ensures
        u16_at(bytes, p) == h,
{
    assert(bytes.subrange(p, p + 2)[0] == bytes[p]);
    assert(bytes.subrange(p, p + 2)[1] == bytes[p + 1]);
    assert(h == h % 256 + 256 * (h / 256));
}

/// A file is the blocks of a tensor, each of `size` bytes, one after the other.
pub open spec fn is_written(bytes: Seq<u8>, blocks: Seq<Seq<u8>>, size: nat) -> bool {
    &&& bytes.len() >= blocks.len() * size
    &&& forall|b: int| 0 <= b < blocks.len() ==> (#[trigger] blocks[b]).len() == size
    &&& forall|b: int|
        0 <= b < blocks.len() ==> bytes.subrange(b * size, b * size + size) == #[trigger] blocks[b]
}

proof fn lemma_part(bytes: Seq<u8>, blocks: Seq<Seq<u8>>, size: nat, b: int, at: int, len: int)
    requires
        is_written(bytes, blocks, size),
        0 <= b < blocks.len(),
        0 <= at,
        0 <= len,
        at + len <= size,
    ensures
        0 <= b * size,
        b * size + size <= bytes.len(),
        bytes.subrange(b * size + at, b * size + at + len) == blocks[b].subrange(at, at + len),
{
    assert(0 <= b * size && b * size + size <= blocks.len() * size) by (nonlinear_arith)
        requires
            0 <= b < blocks.len(),
            size >= 0,
    ;
    assert(bytes.subrange(b * size, b * size + size) == blocks[b]);
    assert(bytes.subrange(b * size + at, b * size + at + len) =~= bytes.subrange(
        b * size,
        b * size + size,
    ).subrange(at, at + len));
}

/// Reading a Q8_0 block gives back what it was written from: the scale, then the codes.
pub proof fn law_q8_0_read_back(
    bytes: Seq<u8>,
    blocks: Seq<Seq<u8>>,
    b: int,
    q: QuantBlock,
    d: u16,
    qs: Seq<u8>,
)
    requires
        is_written(bytes, blocks, 34),
        0 <= b < blocks.len(),
        qs.len() == 32,
        blocks[b] == le16(d) + qs,
        is_block(q, bytes, layout_of(GgufDType::Q8_0).unwrap(), b),
    ensures
        q.d == d,
        q.qs@ == qs,
{
    lemma_part(bytes, blocks, 34, b, 0, 2);
    lemma_part(bytes, blocks, 34, b, 2, 32);
    assert(blocks[b].subrange(0, 2) =~= le16(d));
    assert(blocks[b].subrange(2, 34) =~= qs);
    lemma_le16(bytes, b * 34, d);
}

/// Reading a Q4_K block gives back what it was written from: the scale and the offset, the scales
/// of the parts, then the codes.
pub proof fn law_q4_k_read_back(
    bytes: Seq<u8>,
    blocks: Seq<Seq<u8>>,
    b: int,
    q: QuantBlock,
    d: u16,
    dmin: u16,
    scales: Seq<u8>,
    qs: Seq<u8>,
)
    requires
        is_written(bytes, blocks, 144),
        0 <= b < blocks.len(),
        scales.len() == 12,
        qs.len() == 128,
        blocks[b] == le16(d) + le16(dmin) + scales + qs,
        is_block(q, bytes, layout_of(GgufDType::Q4_K).unwrap(), b),
    ensures
        q.d == d,
        q.dmin == dmin,
        q.scales@ == scales,
        q.qs@ == qs,
{
    lemma_part(bytes, blocks, 144, b, 0, 2);
    lemma_part(bytes, blocks, 144, b, 2, 2);
    lemma_part(bytes, blocks, 144, b, 4, 12);
    lemma_part(bytes, blocks, 144, b, 16, 128);
    assert(blocks[b].subrange(0, 2) =~= le16(d));
    assert(blocks[b].subrange(2, 4) =~= le16(dmin));
    assert(blocks[b].subrange(4, 16) =~= scales);
    assert(blocks[b].subrange(16, 144) =~= qs);
    lemma_le16(bytes, b * 144, d);
    lemma_le16(bytes, b * 144 + 2, dmin);
}

/// Reading a Q3_K block gives back what it was written from: the high bits, the low bits of the
/// codes, the scales of the parts, then the scale.
pub proof fn law_q3_k_read_back(
    bytes: Seq<u8>,
    blocks: Seq<Seq<u8>>,
    b: int,
    q: QuantBlock,
    hmask: Seq<u8>,
    qs: Seq<u8>,
    scales: Seq<u8>,
    d: u16,
)
    requires
        is_written(bytes, blocks, 110),
        0 <= b < blocks.len(),
        hmask.len() == 32,
        qs.len() == 64,
        scales.len() == 12,
        blocks[b] == hmask + qs + scales + le16(d),
        is_block(q, bytes, layout_of(GgufDType::Q3_K).unwrap(), b),
    ensures
        q.hmask@ == hmask,
        q.qs@ == qs,
        q.scales@ == scales,
        q.d == d,
{
    lemma_part(bytes, blocks, 110, b, 0, 32);
    lemma_part(bytes, blocks, 110, b, 32, 64);
    lemma_part(bytes, blocks, 110, b, 96, 12);
    lemma_part(bytes, blocks, 110, b, 108, 2);
    assert(blocks[b].subrange(0, 32) =~= hmask);
    assert(blocks[b].subrange(32, 96) =~= qs);
    assert(blocks[b].subrange(96, 108) =~= scales);
    assert(blocks[b].subrange(108, 110) =~= le16(d));
    lemma_le16(bytes, b * 110 + 108, d);
}

/// Reading a Q2_K block gives back what it was written from: the scales of the parts, the codes,
/// then the scale and the offset.
pub proof fn law_q2_k_read_back(
    bytes: Seq<u8>,
    blocks: Seq<Seq<u8>>,
    b: int,
    q: QuantBlock,
    scales: Seq<u8>,
    qs: Seq<u8>,
    d: u16,
    dmin: u16,
)
    requires
        is_written(bytes, blocks, 84),
        0 <= b < blocks.len(),
        scales.len() == 16,
        qs.len() == 64,
        blocks[b] == scales + qs + le16(d) + le16(dmin),
        is_block(q, bytes, layout_of(GgufDType::Q2_K).unwrap(), b),
    ensures
        q.scales@ == scales,
        q.qs@ == qs,
        q.d == d,
        q.dmin == dmin,
{
    lemma_part(bytes, blocks, 84, b, 0, 16);
    lemma_part(bytes, blocks, 84, b, 16, 64);
    lemma_part(bytes, blocks, 84, b, 80, 2);
    lemma_part(bytes, blocks, 84, b, 82, 2);
    assert(blocks[b].subrange(0, 16) =~= scales);
    assert(blocks[b].subrange(16, 80) =~= qs);
    assert(blocks[b].subrange(80, 82) =~= le16(d));
    assert(blocks[b].subrange(82, 84) =~= le16(dmin));
    lemma_le16(bytes, b * 84 + 80, d);
    lemma_le16(bytes, b * 84 + 82, dmin);
}

/// Reading an IQ2_XXS block gives back what it was written from: the scale, then the codes.
pub proof fn law_iq2_xxs_read_back(
    bytes: Seq<u8>,
    blocks: Seq<Seq<u8>>,
    b: int,
    q: QuantBlock,
    d: u16,
    qs: Seq<u8>,
)
    requires
        is_written(bytes, blocks, 66),
        0 <= b < blocks.len(),
        qs.len() == 64,
        blocks[b] == le16(d) + qs,
        is_block(q, bytes, layout_of(GgufDType::Iq2Xxs).unwrap(), b),
    ensures
        q.d == d,
        q.qs@ == qs,
{
    lemma_part(bytes, blocks, 66, b, 0, 2);
    lemma_part(bytes, blocks, 66, b, 2, 64);
    assert(blocks[b].subrange(0, 2) =~= le16(d));
    assert(blocks[b].subrange(2, 66) =~= qs);
    lemma_le16(bytes, b * 66, d);
}

proof fn lemma_whole_blocks(format: GgufDType, n: nat, k: nat)
    requires
        n == k * block_elements(format),
    ensures
        bytes_needed(format, n) == k * block_bytes(format),
{
    let size = block_elements(format);
    assert(n % size == 0 && n / size == k) by {
        vstd::arithmetic::div_mod::lemma_div_multiples_vanish(k as int, size as int);
        vstd::arithmetic::div_mod::lemma_mod_multiples_basic(k as int, size as int);
        assert(size * k == k * size) by (nonlinear_arith);
    }
}

/// What 256 elements take: 1024 bytes in single precision, 512 in half precision, eight blocks of
/// 34 bytes in Q8_0, and one block of 144, 110, 84 or 66 bytes in the other formats. Larger
/// tensors take that many times as much, and a tensor is refused for its length exactly where it
/// is shorter.
pub proof fn law_bytes_needed(desc: TensorDescriptor, len: nat, k: nat)
    requires
        element_count(desc.dims@) == 256 * k,
    ensures
        ({
            let refused = tensor_fault(desc, len, desc.dtype) is Some;
            &&& desc.dtype == GgufDType::F32 ==> (refused <==> len < 1024 * k)
            &&& desc.dtype == GgufDType::F16 ==> (refused <==> len < 512 * k)
            &&& desc.dtype == GgufDType::Q8_0 ==> (refused <==> len < 272 * k)
            &&& desc.dtype == GgufDType::Q4_K ==> (refused <==> len < 144 * k)
            &&& desc.dtype == GgufDType::Q3_K ==> (refused <==> len < 110 * k)
            &&& desc.dtype == GgufDType::Q2_K ==> (refused <==> len < 84 * k)
            &&& desc.dtype == GgufDType::Iq2Xxs ==> (refused <==> len < 66 * k)
        }),
{
    let n = element_count(desc.dims@);
    let blocks = match desc.dtype {
        GgufDType::F32 => 256 * k,
        GgufDType::F16 => 256 * k,
        GgufDType::Q8_0 => 8 * k,
        GgufDType::Other => n,
        _ => k,
    };
    let size = block_elements(desc.dtype);
    assert(n == blocks * size) by {
        assert(size == 1 || size == 32 || size == 256);
        assert(size == 256 ==> blocks == k);
        assert(blocks * 1 == blocks && blocks * 32 == 32 * blocks && blocks * 256 == 256 * blocks);
    }
    lemma_whole_blocks(desc.dtype, n, blocks);
    let needed = bytes_needed(desc.dtype, n);
    assert(tensor_fault(desc, len, desc.dtype) is Some <==> len < needed);
    match desc.dtype {
        GgufDType::F32 => {
            assert(needed == 1024 * k) by (nonlinear_arith)
                requires
                    needed == blocks * 4,
                    blocks == 256 * k,
            ;
        },
        GgufDType::F16 => {
            assert(needed == 512 * k) by (nonlinear_arith)
                requires
                    needed == blocks * 2,
                    blocks == 256 * k,
            ;
        },
        GgufDType::Q8_0 => {
            assert(needed == 272 * k) by (nonlinear_arith)
                requires
                    needed == blocks * 34,
                    blocks == 8 * k,
            ;
        },
        GgufDType::Q4_K => assert(needed == k * 144),
        GgufDType::Q3_K => assert(needed == k * 110),
        GgufDType::Q2_K => assert(needed == k * 84),
        GgufDType::Iq2Xxs => assert(needed == k * 66),
        GgufDType::Other => {},
    }
}

/// A tensor that does not fill its last block takes that block whole: the bytes of the next whole
/// number of blocks.
pub proof fn law_last_block_whole(format: GgufDType, n: nat, part: nat)
    requires
        n % block_elements(format) == 0,
        0 < part <= block_elements(format),
    ensures
        bytes_needed(format, n + part) == bytes_needed(format, n) + block_bytes(format),
{
    let size = block_elements(format) as int;
    let q = n as int / size;
    vstd::arithmetic::div_mod::lemma_fundamental_div_mod(n as int, size);
    if part == size {
        assert(n + part == size * (q + 1)) by (nonlinear_arith)
            requires
                n == size * q,
                part == size,
        ;
        vstd::arithmetic::div_mod::lemma_fundamental_div_mod_converse(
            (n + part) as int,
            size,
            q + 1,
            0,
        );
    } else {
        assert(size * q == q * size) by (nonlinear_arith);
        vstd::arithmetic::div_mod::lemma_fundamental_div_mod_converse(
            (n + part) as int,
            size,
            q,
            part as int,
        );
    }
    let bytes = block_bytes(format);
    assert((q + 1) * bytes == q * bytes + bytes) by (nonlinear_arith);
}

} // verus!
