//! Typed buffers, and a pool that hands them out again.

use vstd::prelude::*;

use crate::le::{unpack_words, words_of};

verus! {

/// What a buffer holds.
#[derive(Debug, Clone, Copy, PartialEq, Eq, Structural)]
pub enum DType {
    F32,
    F16,
    Q8_0,
    Q4_K,
    Q2_K,
    Iq2Xxs,
}

/// Number of bytes of an element, or of a block.
pub open spec fn elem_bytes(d: DType) -> nat {
    match d {
        DType::F32 => 4,
        DType::F16 => 2,
        DType::Q8_0 => 36,
        DType::Q4_K => 144,
        DType::Q2_K => 84,
        DType::Iq2Xxs => 66,
    }
}

/// Number of bytes of an element, or of a block.
pub fn dtype_elem(d: DType) -> (n: usize)
    ensures
        n == elem_bytes(d),
{
    match d {
        DType::F32 => 4,
        DType::F16 => 2,
        DType::Q8_0 => 36,
        DType::Q4_K => 144,
        DType::Q2_K => 84,
        DType::Iq2Xxs => 66,
    }
}

/// A buffer in host memory.
#[derive(Debug)]
pub struct Buffer {
    pub dtype: DType,
    pub bytes: Vec<u8>,
    pub len: usize,
    pub capacity: usize,
}

/// What a buffer holds.
pub struct BufferView {
    pub dtype: DType,
    pub bytes: Seq<u8>,
    pub len: usize,
    pub capacity: usize,
}

impl View for Buffer {
    type V = BufferView;

    open spec fn view(&self) -> BufferView {
        BufferView {
            dtype: self.dtype,
            bytes: self.bytes@,
            len: self.len,
            capacity: self.capacity,
        }
    }
}

/// `n` zero bytes.
pub open spec fn zero_bytes(n: int) -> Seq<u8> {
    Seq::new(n as nat, |i: int| 0u8)
}

impl BufferView {
    /// There are bytes for as many elements as there is room for.
    pub open spec fn wf(self) -> bool {
        self.len <= self.capacity && self.bytes.len() == self.capacity * elem_bytes(self.dtype)
    }

    /// The buffer can hold `len` elements of this kind.
    pub open spec fn suits(self, dtype: DType, len: usize) -> bool {
        self.dtype == dtype && self.capacity >= len
    }

    /// The buffer with `len` elements, all of them zero; bytes after them are as they were.
    pub open spec fn reused(self, len: usize) -> BufferView {
        let n = len * elem_bytes(self.dtype);
        BufferView {
            bytes: zero_bytes(n) + self.bytes.skip(n),
            len,
            ..self
        }
    }
}

/// A new buffer.
pub open spec fn fresh_buffer(dtype: DType, len: usize) -> BufferView {
    BufferView { dtype, bytes: zero_bytes(len * elem_bytes(dtype)), len, capacity: len }
}

impl Buffer {
    /// A buffer of `len` elements, all of them zero.
    pub fn new(dtype: DType, len: usize) -> (b: Self)
        requires
            len * elem_bytes(dtype) <= usize::MAX,
        ensures
            b@ == fresh_buffer(dtype, len),
            b@.wf(),
    {
        let n: usize = len * dtype_elem(dtype);
        let mut bytes: Vec<u8> = Vec::new();
        let mut i: usize = 0;
        while i < n
            invariant
                i <= n,
                bytes@ == zero_bytes(i as int),
            decreases n - i,
        {
            bytes.push(0);
            i += 1;
            assert(bytes@ =~= zero_bytes(i as int));
        }
        Buffer { dtype, bytes, len, capacity: len }
    }

    /// The bit patterns of a single-precision buffer, up to its capacity.
    pub fn to_f32_bits(&self) -> (r: Vec<u32>)
        requires
            self.dtype == DType::F32,
        ensures
            r@ == words_of(self@.bytes),
    {
        unpack_words(self.bytes.as_slice())
    }
}

/// Buffers that are not in use.
#[derive(Debug)]
pub struct BufferPool {
    pub free: Vec<Buffer>,
}

/// What a pool holds.
pub open spec fn pool_view(free: Seq<Buffer>) -> Seq<BufferView> {
    Seq::new(free.len(), |i: int| free[i]@)
}

/// The first buffer of the list, from `from` on, that can hold the elements.
pub open spec fn first_suiting(
    free: Seq<BufferView>,
    dtype: DType,
    len: usize,
    from: int,
) -> Option<int>
    decreases free.len() - from,
{
    if from < 0 || from >= free.len() {
        None
    } else if free[from].suits(dtype, len) {
        Some(from)
    } else {
        first_suiting(free, dtype, len, from + 1)
    }
}

/// The list without one of its buffers, the last one in its place.
pub open spec fn swapped_out(free: Seq<BufferView>, i: int) -> Seq<BufferView> {
    free.update(i, free.last()).drop_last()
}

impl BufferPool {
    /// What the pool holds.
    pub open spec fn held(self) -> Seq<BufferView> {
        pool_view(self.free@)
    }

    /// All buffers of the pool are whole.
    pub open spec fn wf(self) -> bool {
        forall|i: int| 0 <= i < self.free@.len() ==> (#[trigger] self.free@[i])@.wf()
    }

    /// A pool without buffers.
    pub fn new() -> (p: Self)
        ensures
            p.held() == Seq::<BufferView>::empty(),
            p.wf(),
    {
        let p = BufferPool { free: Vec::new() };
        assert(p.held() =~= Seq::<BufferView>::empty());
        p
    }

    /// A buffer of `len` elements, all of them zero: the first of the pool that can hold them, or
    /// a new one.
    pub fn alloc_buffer(&mut self, dtype: DType, len: usize) -> (b: Buffer)
        requires
            old(self).wf(),
            len * elem_bytes(dtype) <= usize::MAX,
        ensures
            final(self).wf(),
            b@.wf(),
            match first_suiting(old(self).held(), dtype, len, 0) {
                Some(i) => {
                    &&& b@ == old(self).held()[i].reused(len)
                    &&& final(self).held() == swapped_out(old(self).held(), i)
                },
                None => {
                    &&& b@ == fresh_buffer(dtype, len)
                    &&& final(self).held() == old(self).held()
                },
            },
    {
        let ghost before = self.held();
        let mut i: usize = 0;
        while i < self.free.len()
            invariant
                i <= self.free@.len(),
                before == self.held(),
                self.wf(),
                *self == *old(self),
                len * elem_bytes(dtype) <= usize::MAX,
                before == old(self).held(),
                first_suiting(before, dtype, len, 0) == first_suiting(before, dtype, len, i as int),
            decreases self.free@.len() - i,
        {
            assert(before[i as int] == self.free@[i as int]@);
            if self.free[i].dtype == dtype && self.free[i].capacity >= len {
                let ghost all = self.free@;
                let mut b: Buffer = self.free.swap_remove(i);
                proof {
                    assert(self.held() =~= swapped_out(before, i as int));
                    assert forall|j: int| 0 <= j < self.free@.len() implies (
                    #[trigger] self.free@[j])@.wf() by {
                        if j == i {
                            assert(all[all.len() - 1]@.wf());
                        } else {
                            assert(all[j]@.wf());
                        }
                    }
                    assert(b@ == before[i as int]);
                    assert(len * elem_bytes(dtype) <= b.capacity * elem_bytes(dtype))
                        by (nonlinear_arith)
                        requires
                            len <= b.capacity,
                    ;
                }
                let n: usize = len * dtype_elem(dtype);
                b.len = len;
                let ghost kept = b.bytes@;
                let mut k: usize = 0;
                assert(b.bytes@ =~= zero_bytes(0) + kept.skip(0));
                while k < n
                    invariant
                        k <= n <= kept.len(),
                        n == len * elem_bytes(dtype),
                        b.dtype == dtype,
                        b.len == len,
                        b.capacity == before[i as int].capacity,
                        b.bytes@ == zero_bytes(k as int) + kept.skip(k as int),
                    decreases n - k,
                {
                    b.bytes.set(k, 0);
                    k += 1;
                    assert(b.bytes@ =~= zero_bytes(k as int) + kept.skip(k as int));
                }
                return b;
            }
            i += 1;
        }
        Buffer::new(dtype, len)
    }

    /// Puts a buffer into the pool.
    pub fn release(&mut self, b: Buffer)
        requires
            old(self).wf(),
            b@.wf(),
        ensures
            final(self).wf(),
            final(self).held() == old(self).held().push(b@),
    {
        let ghost before = self.free@;
        self.free.push(b);
        assert(self.held() =~= pool_view(before).push(b@));
        assert forall|j: int| 0 <= j < self.free@.len() implies (#[trigger] self.free@[j])@.wf() by {
            if j < before.len() {
                assert(before[j]@.wf());
            }
        }
    }
}

/// A buffer that was put into an empty pool is handed out again for anything of its kind that fits,
/// and then the pool is empty again.
pub proof fn law_released_is_reused(b: BufferView, dtype: DType, len: usize)
    requires
        b.suits(dtype, len),
    ensures
        first_suiting(seq![b], dtype, len, 0) == Some(0int),
        swapped_out(seq![b], 0) == Seq::<BufferView>::empty(),
        b.reused(len).capacity == b.capacity,
{
    assert(swapped_out(seq![b], 0) =~= Seq::<BufferView>::empty());
}

/// Whatever is handed out, its elements are zero.
pub proof fn law_handed_out_zero(b: BufferView, len: usize, i: int)
    requires
        b.wf(),
        len <= b.capacity,
        0 <= i < len * elem_bytes(b.dtype),
    ensures
        b.reused(len).bytes[i] == 0,
        fresh_buffer(b.dtype, len).bytes[i] == 0,
        b.reused(len).wf(),
{
    assert(len * elem_bytes(b.dtype) <= b.capacity * elem_bytes(b.dtype)) by (nonlinear_arith)
        requires
            len <= b.capacity,
    ;
}

/// The buffer that is handed out is of the kind that was asked for and has room for as much, and
/// none before it is; where there is none, the pool holds no such buffer. Taking one out leaves all
/// the others.
pub proof fn law_first_suiting(free: Seq<BufferView>, dtype: DType, len: usize, from: int, k: int)
    requires
        0 <= from <= free.len(),
        0 <= k < free.len(),
    ensures
        match first_suiting(free, dtype, len, from) {
            Some(i) => {
                &&& from <= i < free.len()
                &&& free[i].dtype == dtype
                &&& free[i].capacity >= len
                &&& from <= k < i ==> free[k].dtype != dtype || free[k].capacity < len
            },
            None => from <= k ==> free[k].dtype != dtype || free[k].capacity < len,
        },
        swapped_out(free, k).len() == free.len() - 1,
        forall|j: int|
            0 <= j < free.len() && j != k ==> swapped_out(free, k).contains(#[trigger] free[j]),
    decreases free.len() - from,
{
    if from < free.len() && !free[from].suits(dtype, len) {
        law_first_suiting(free, dtype, len, from + 1, k);
    }
    let rest = swapped_out(free, k);
    assert forall|j: int| 0 <= j < free.len() && j != k implies rest.contains(#[trigger] free[j]) by {
        if j < free.len() - 1 {
            assert(rest[j] == free[j]);
        } else {
            assert(rest[k] == free[j]);
        }
    }
}

/// A new buffer has four bytes for each single-precision number, two for each half-precision one,
/// and for each block of another format as many as the block takes.
pub proof fn law_fresh_bytes(dtype: DType, len: usize)
    ensures
        fresh_buffer(dtype, len).bytes.len() == len * match dtype {
            DType::F32 => 4int,
            DType::F16 => 2,
            DType::Q8_0 => 36,
            DType::Q4_K => 144,
            DType::Q2_K => 84,
            DType::Iq2Xxs => 66,
        },
        fresh_buffer(dtype, len).len == len,
        fresh_buffer(dtype, len).capacity == len,
        fresh_buffer(dtype, len).dtype == dtype,
{
    assert(len * elem_bytes(dtype) >= 0) by (nonlinear_arith);
}

} // verus!
