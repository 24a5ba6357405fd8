//! Tensors that hold the weights of all experts: which bytes belong to one of them.

use vstd::prelude::*;
use vstd::string::StringExecFns;

use crate::gguf::{
    block_bytes, block_elements, blocks_needed, count_blocks, element_count, elements_countable,
    numel, GgufDType,
};
use crate::slices::copy_bytes;
use crate::text::{dec, push_dec};
use crate::types::{fault, Ds4Error, Ds4ErrorKind, Ds4Result, Fault};

verus! {

// ---- Row-major elements ----

/// The number of dimensions that a list of coordinates and a shape share.
pub open spec fn shared_rank(coords: Seq<usize>, dims: Seq<u32>) -> int {
    if coords.len() < dims.len() {
        coords.len() as int
    } else {
        dims.len() as int
    }
}

/// The index of an element by its first `n` coordinates, the last one running fastest.
pub open spec fn row_index(coords: Seq<usize>, dims: Seq<u32>, n: int) -> nat
    decreases n,
{
    if n <= 0 {
        0
    } else {
        row_index(coords, dims, n - 1) * dims[n - 1] as nat + coords[n - 1] as nat
    }
}

/// What stands against the index of an element: the first coordinate, from `from` on, that lies
/// outside its dimension, or at which the index gets too large.
pub open spec fn index_fault(coords: Seq<usize>, dims: Seq<u32>, from: int) -> Option<Fault>
    decreases shared_rank(coords, dims) - from,
{
    if from < 0 || from >= shared_rank(coords, dims) {
        None
    } else if coords[from] >= dims[from] {
        fault(
            Ds4ErrorKind::Model,
            "packed expert coordinate "@ + dec(coords[from] as nat) + " is outside dim "@ + dec(
                dims[from] as nat,
            ),
        )
    } else if row_index(coords, dims, from + 1) > usize::MAX {
        fault(Ds4ErrorKind::Model, "packed expert element offset overflowed usize"@)
    } else {
        index_fault(coords, dims, from + 1)
    }
}

/// The coordinates lie inside their dimensions.
pub open spec fn inside(coords: Seq<usize>, dims: Seq<u32>) -> bool {
    coords.len() == dims.len() && forall|i: int|
        0 <= i < dims.len() ==> (#[trigger] coords[i]) < dims[i]
}

proof fn lemma_index_bound(coords: Seq<usize>, dims: Seq<u32>, n: int)
    requires
        inside(coords, dims),
        0 <= n <= dims.len(),
    ensures
        row_index(coords, dims, n) < element_count(dims.take(n)),
    decreases n,
{
    if n > 0 {
        lemma_index_bound(coords, dims, n - 1);
        let t = dims.take(n);
        assert(t.drop_last() =~= dims.take(n - 1));
        assert(t.last() == dims[n - 1]);
        let i = row_index(coords, dims, n - 1);
        let m = element_count(dims.take(n - 1));
        let d = dims[n - 1] as nat;
        let c = coords[n - 1] as nat;
        assert(coords[n - 1] < dims[n - 1]);
        assert(i * d + c < m * d) by (nonlinear_arith)
            requires
                i < m,
                c < d,
        ;
    } else {
        assert(dims.take(0) =~= Seq::<u32>::empty());
    }
}

/// The index of an element lies below the number of elements.
pub proof fn law_index_in_tensor(coords: Seq<usize>, dims: Seq<u32>)
    requires
        inside(coords, dims),
    ensures
        row_index(coords, dims, dims.len() as int) < element_count(dims),
{
    lemma_index_bound(coords, dims, dims.len() as int);
    assert(dims.take(dims.len() as int) =~= dims);
}

proof fn lemma_index_injective(a: Seq<usize>, b: Seq<usize>, dims: Seq<u32>, n: int)
    requires
        inside(a, dims),
        inside(b, dims),
        0 <= n <= dims.len(),
        row_index(a, dims, n) == row_index(b, dims, n),
    ensures
        forall|i: int| 0 <= i < n ==> a[i] == b[i],
    decreases n,
{
    if n > 0 {
        let x = row_index(a, dims, n - 1) as int;
        let y = row_index(b, dims, n - 1) as int;
        let d = dims[n - 1] as int;
        let p = a[n - 1] as int;
        let q = b[n - 1] as int;
        assert(a[n - 1] < dims[n - 1] && b[n - 1] < dims[n - 1]);
        assert(x == y && p == q) by (nonlinear_arith)
            requires
                x * d + p == y * d + q,
                0 <= p < d,
                0 <= q < d,
        ;
        lemma_index_injective(a, b, dims, n - 1);
    }
}

/// Two elements have the same index only if they have the same coordinates.
pub proof fn law_index_injective(a: Seq<usize>, b: Seq<usize>, dims: Seq<u32>)
    requires
        inside(a, dims),
        inside(b, dims),
        row_index(a, dims, dims.len() as int) == row_index(b, dims, dims.len() as int),
    ensures
        a == b,
{
    lemma_index_injective(a, b, dims, dims.len() as int);
    assert(a =~= b);
}

/// The index of an element.
pub fn row_major_index(coords: &[usize], dims: &[u32]) -> (r: Ds4Result<usize>)
    ensures
        match index_fault(coords@, dims@, 0) {
            Some(f) => r matches Err(e) && e.says(f),
            None => r matches Ok(i) && i == row_index(
                coords@,
                dims@,
                shared_rank(coords@, dims@),
            ),
        },
{
    let mut index: usize = 0;
    let mut i: usize = 0;
    while i < coords.len() && i < dims.len()
        invariant
            i <= shared_rank(coords@, dims@),
            index == row_index(coords@, dims@, i as int),
            index_fault(coords@, dims@, 0) == index_fault(coords@, dims@, i as int),
        decreases shared_rank(coords@, dims@) - i,
    {
        let dim: usize = dims[i] as usize;
        let coord: usize = coords[i];
        if coord >= dim {
            let mut m: String = String::from_str("packed expert coordinate ");
            push_dec(&mut m, coord as u64);
            m.append(" is outside dim ");
            push_dec(&mut m, dim as u64);
            return Err(Ds4Error::new(Ds4ErrorKind::Model, m));
        }
        let next: Option<usize> = match index.checked_mul(dim) {
            Some(p) => p.checked_add(coord),
            None => None,
        };
        match next {
            Some(v) => {
                index = v;
            },
            None => {
                return Err(
                    Ds4Error::new(
                        Ds4ErrorKind::Model,
                        String::from_str("packed expert element offset overflowed usize"),
                    ),
                );
            },
        }
        i += 1;
    }
    Ok(index)
}

// ---- Quantised experts ----

/// Number of bytes that a matrix takes, held at the largest number that can be counted.
pub open spec fn data_bytes(dims: Seq<u32>, dtype: GgufDType) -> nat {
    let n = blocks_needed(element_count(dims), block_elements(dtype)) * block_bytes(dtype);
    if n <= u64::MAX {
        n
    } else {
        u64::MAX as nat
    }
}

/// Number of bytes that a matrix takes.
pub fn tensor_data_bytes(dims: &[u32], dtype: GgufDType) -> (n: usize)
    requires
        elements_countable(dims@),
        data_bytes(dims@, dtype) <= usize::MAX,
    ensures
        n == data_bytes(dims@, dtype),
{
    let count: u64 = numel(dims);
    let blocks: u64 = count_blocks(count, dtype.block_size());
    let size: u64 = dtype.byte_size();
    match blocks.checked_mul(size) {
        Some(n) => n as usize,
        None => u64::MAX as usize,
    }
}

/// What stands against the bytes of an expert.
pub open spec fn quant_slice_fault(len: nat, stride: nat, expert: usize) -> Option<Fault> {
    if expert * stride > usize::MAX {
        fault(Ds4ErrorKind::Model, "packed expert byte offset overflowed usize"@)
    } else if expert * stride + stride > usize::MAX {
        fault(Ds4ErrorKind::Model, "packed expert byte range overflowed usize"@)
    } else if expert * stride + stride > len {
        fault(
            Ds4ErrorKind::Model,
            "packed expert byte range "@ + dec((expert * stride) as nat) + ".."@ + dec(
                (expert * stride + stride) as nat,
            ) + " exceeds tensor bytes "@ + dec(len),
        )
    } else {
        None
    }
}

/// Experts do not share bytes.
pub proof fn law_experts_disjoint(stride: nat, a: usize, b: usize)
    requires
        a < b,
    ensures
        a * stride + stride <= b * stride,
{
    assert(a * stride + stride <= b * stride) by (nonlinear_arith)
        requires
            a + 1 <= b,
            stride >= 0,
    ;
}

fn range_error(what: &str, start: usize, end: usize, len: usize) -> (e: Ds4Error)
    ensures
        e.is(
            Ds4ErrorKind::Model,
            what@ + dec(start as nat) + ".."@ + dec(end as nat) + " exceeds tensor bytes "@ + dec(
                len as nat,
            ),
        ),
{
    let mut m: String = String::from_str(what);
    push_dec(&mut m, start as u64);
    m.append("..");
    push_dec(&mut m, end as u64);
    m.append(" exceeds tensor bytes ");
    push_dec(&mut m, len as u64);
    Ds4Error::new(Ds4ErrorKind::Model, m)
}

/// The bytes of an expert in a quantised tensor, where experts stand one after the other.
pub fn packed_quant_expert_slice(
    bytes: &[u8],
    matrix_dims: &[u32],
    dtype: GgufDType,
    expert: usize,
) -> (r: Ds4Result<Vec<u8>>)
    requires
        elements_countable(matrix_dims@),
        data_bytes(matrix_dims@, dtype) <= usize::MAX,
    ensures
        ({
            let stride = data_bytes(matrix_dims@, dtype);
            match quant_slice_fault(bytes@.len(), stride, expert) {
                Some(f) => r matches Err(e) && e.says(f),
                None => r matches Ok(v) && v@ == bytes@.subrange(
                    expert * stride,
                    expert * stride + stride,
                ),
            }
        }),
{
    let stride: usize = tensor_data_bytes(matrix_dims, dtype);
    assert(0 <= expert * stride) by (nonlinear_arith);
    let start: usize = match expert.checked_mul(stride) {
        Some(v) => v,
        None => {
            return Err(
                Ds4Error::new(
                    Ds4ErrorKind::Model,
                    String::from_str("packed expert byte offset overflowed usize"),
                ),
            );
        },
    };
    let end: usize = match start.checked_add(stride) {
        Some(v) => v,
        None => {
            return Err(
                Ds4Error::new(
                    Ds4ErrorKind::Model,
                    String::from_str("packed expert byte range overflowed usize"),
                ),
            );
        },
    };
    if end > bytes.len() {
        return Err(range_error("packed expert byte range ", start, end, bytes.len()));
    }
    Ok(copy_bytes(bytes, start, end))
}

// ---- Single-precision experts ----

/// The dimensions without one of them.
pub open spec fn without_axis(dims: Seq<u32>, axis: int) -> Seq<u32> {
    if 0 <= axis < dims.len() {
        dims.remove(axis)
    } else {
        dims
    }
}

/// The dimensions without one of them.
pub fn matrix_dims(dims: &[u32], axis: usize) -> (r: Vec<u32>)
    ensures
        r@ == without_axis(dims@, axis as int),
{
    let mut out: Vec<u32> = Vec::new();
    let mut i: usize = 0;
    while i < dims.len()
        invariant
            i <= dims@.len(),
            out@ == without_axis(dims@.take(i as int), axis as int),
        decreases dims@.len() - i,
    {
        if i != axis {
            out.push(dims[i]);
        }
        i += 1;
        assert(out@ =~= without_axis(dims@.take(i as int), axis as int));
    }
    assert(dims@.take(i as int) =~= dims@);
    out
}

/// The coordinates of an element of an expert's matrix.
pub open spec fn expert_coords(axis: usize, expert: usize, row: usize, col: usize) -> Seq<usize> {
    if axis == 0 {
        seq![expert, row, col]
    } else if axis == 1 {
        seq![row, expert, col]
    } else if axis == 2 {
        seq![row, col, expert]
    } else {
        seq![row, col, col]
    }
}

fn list_coords(axis: usize, expert: usize, row: usize, col: usize) -> (r: Vec<usize>)
    ensures
        r@ == expert_coords(axis, expert, row, col),
{
    let mut coords: Vec<usize> = Vec::new();
    if axis == 0 {
        coords.push(expert);
        coords.push(row);
        coords.push(col);
    } else if axis == 1 {
        coords.push(row);
        coords.push(expert);
        coords.push(col);
    } else if axis == 2 {
        coords.push(row);
        coords.push(col);
        coords.push(expert);
    } else {
        coords.push(row);
        coords.push(col);
        coords.push(col);
    }
    assert(coords@ =~= expert_coords(axis, expert, row, col));
    coords
}

/// The index of an element of an expert's matrix in the whole tensor.
pub open spec fn expert_index(
    dims: Seq<u32>,
    axis: usize,
    expert: usize,
    row: usize,
    col: usize,
) -> nat {
    let coords = expert_coords(axis, expert, row, col);
    row_index(coords, dims, shared_rank(coords, dims))
}

/// What stands against reading an element of an expert's matrix.
pub open spec fn element_fault(
    len: nat,
    dims: Seq<u32>,
    axis: usize,
    expert: usize,
    row: usize,
    col: usize,
) -> Option<Fault> {
    let start = 4 * expert_index(dims, axis, expert, row, col);
    if index_fault(expert_coords(axis, expert, row, col), dims, 0) is Some {
        index_fault(expert_coords(axis, expert, row, col), dims, 0)
    } else if start > usize::MAX {
        fault(Ds4ErrorKind::Model, "packed F32 byte offset overflowed usize"@)
    } else if start + 4 > len {
        fault(
            Ds4ErrorKind::Model,
            "packed F32 byte range "@ + dec(start) + ".."@ + dec(
                if start + 4 <= usize::MAX {
                    start + 4
                } else {
                    usize::MAX as nat
                },
            ) + " exceeds tensor bytes "@ + dec(len),
        )
    } else {
        None
    }
}

/// The first fault among the elements of an expert's matrix, row by row, from element `from` on.
pub open spec fn elements_fault(
    len: nat,
    dims: Seq<u32>,
    axis: usize,
    expert: usize,
    rows: int,
    cols: int,
    from: int,
) -> Option<Fault>
    decreases rows * cols - from,
{
    if from < 0 || from >= rows * cols {
        None
    } else {
        let f = element_fault(
            len,
            dims,
            axis,
            expert,
            (from / cols) as usize,
            (from % cols) as usize,
        );
        if f is Some {
            f
        } else {
            elements_fault(len, dims, axis, expert, rows, cols, from + 1)
        }
    }
}

/// The four bytes of element `k`.
pub open spec fn element_bytes(s: Seq<u8>, k: int) -> Seq<u8> {
    s.subrange(4 * k, 4 * k + 4)
}

/// The index in the whole tensor of element `k` of an expert's matrix.
pub open spec fn nth_index(dims: Seq<u32>, axis: usize, expert: usize, cols: int, k: int) -> int {
    expert_index(dims, axis, expert, (k / cols) as usize, (k % cols) as usize) as int
}

/// The bytes hold the elements of an expert's matrix, row by row.
pub open spec fn is_expert_matrix(
    out: Seq<u8>,
    bytes: Seq<u8>,
    dims: Seq<u32>,
    axis: usize,
    expert: usize,
    count: int,
    cols: int,
) -> bool {
    &&& out.len() == 4 * count
    &&& forall|k: int|
        0 <= k < count ==> #[trigger] element_bytes(out, k) == element_bytes(
            bytes,
            nth_index(dims, axis, expert, cols, k),
        )
}

fn element_at(
    bytes: &[u8],
    dims: &[u32],
    axis: usize,
    expert: usize,
    row: usize,
    col: usize,
) -> (r: Ds4Result<usize>)
    ensures
        match element_fault(bytes@.len(), dims@, axis, expert, row, col) {
            Some(f) => r matches Err(e) && e.says(f),
            None => {
                &&& r matches Ok(start)
                &&& start == 4 * expert_index(dims@, axis, expert, row, col)
                &&& start + 4 <= bytes@.len()
            },
        },
{
    let coords: Vec<usize> = list_coords(axis, expert, row, col);
    let elem: usize = row_major_index(coords.as_slice(), dims)?;
    let start: usize = match elem.checked_mul(4) {
        Some(v) => v,
        None => {
            return Err(
                Ds4Error::new(
                    Ds4ErrorKind::Model,
                    String::from_str("packed F32 byte offset overflowed usize"),
                ),
            );
        },
    };
    let fits: bool = start <= usize::MAX - 4;
    let end: usize = if fits {
        start + 4
    } else {
        usize::MAX
    };
    if !fits || end > bytes.len() {
        return Err(range_error("packed F32 byte range ", start, end, bytes.len()));
    }
    Ok(start)
}

/// The bytes of an expert in a single-precision tensor, where the expert runs along one dimension
/// of the tensor.
pub fn packed_f32_expert_slice(bytes: &[u8], dims: &[u32], expert_axis: usize, expert: usize) -> (r:
    Ds4Result<Vec<u8>>)
    ensures
        ({
            let m = without_axis(dims@, expert_axis as int);
            if m.len() != 2 {
                r matches Err(e) && e.is(
                    Ds4ErrorKind::Model,
                    "packed F32 expert tensor did not reduce to two matrix dims"@,
                )
            } else {
                match elements_fault(
                    bytes@.len(),
                    dims@,
                    expert_axis,
                    expert,
                    m[0] as int,
                    m[1] as int,
                    0,
                ) {
                    Some(f) => r matches Err(e) && e.says(f),
                    None => r matches Ok(v) && is_expert_matrix(
                        v@,
                        bytes@,
                        dims@,
                        expert_axis,
                        expert,
                        m[0] * m[1],
                        m[1] as int,
                    ),
                }
            }
        }),
{
    let m: Vec<u32> = matrix_dims(dims, expert_axis);
    if m.len() != 2 {
        return Err(
            Ds4Error::new(
                Ds4ErrorKind::Model,
                String::from_str("packed F32 expert tensor did not reduce to two matrix dims"),
            ),
        );
    }
    let rows: usize = m[0] as usize;
    let cols: usize = m[1] as usize;
    let ghost len = bytes@.len();
    let mut out: Vec<u8> = Vec::new();
    let mut row: usize = 0;
    while row < rows
        invariant
            row <= rows,
            m@ == without_axis(dims@, expert_axis as int),
            m@.len() == 2,
            rows == m@[0],
            cols == m@[1],
            len == bytes@.len(),
            elements_fault(len, dims@, expert_axis, expert, rows as int, cols as int, 0)
                == elements_fault(
                len,
                dims@,
                expert_axis,
                expert,
                rows as int,
                cols as int,
                row * cols,
            ),
            is_expert_matrix(
                out@,
                bytes@,
                dims@,
                expert_axis,
                expert,
                row * cols,
                cols as int,
            ),
        decreases rows - row,
    {
        let mut col: usize = 0;
        while col < cols
            invariant
                row < rows,
                col <= cols,
                m@ == without_axis(dims@, expert_axis as int),
                m@.len() == 2,
                rows == m@[0],
                cols == m@[1],
                len == bytes@.len(),
                elements_fault(len, dims@, expert_axis, expert, rows as int, cols as int, 0)
                    == elements_fault(
                    len,
                    dims@,
                    expert_axis,
                    expert,
                    rows as int,
                    cols as int,
                    row * cols + col,
                ),
                is_expert_matrix(
                    out@,
                    bytes@,
                    dims@,
                    expert_axis,
                    expert,
                    row * cols + col,
                    cols as int,
                ),
            decreases cols - col,
        {
            let ghost k = row * cols + col;
            proof {
                assert(0 <= k < rows * cols) by (nonlinear_arith)
                    requires
                        k == row * cols + col,
                        0 <= row < rows,
                        0 <= col < cols,
                ;
                vstd::arithmetic::div_mod::lemma_fundamental_div_mod_converse(
                    k,
                    cols as int,
                    row as int,
                    col as int,
                );
            }
            let start: usize = element_at(bytes, dims, expert_axis, expert, row, col)?;
            let ghost before = out@;
            out.push(bytes[start]);
            out.push(bytes[start + 1]);
            out.push(bytes[start + 2]);
            out.push(bytes[start + 3]);
            proof {
                assert forall|j: int| 0 <= j < k + 1 implies #[trigger] element_bytes(out@, j)
                    == element_bytes(
                    bytes@,
                    nth_index(dims@, expert_axis, expert, cols as int, j),
                ) by {
                    if j < k {
                        assert(element_bytes(out@, j) =~= element_bytes(before, j));
                    } else {
                        assert(element_bytes(out@, j) =~= bytes@.subrange(
                            start as int,
                            start + 4,
                        ));
                    }
                }
            }
            col += 1;
        }
        proof {
            assert(row * cols + cols == (row + 1) * cols) by (nonlinear_arith);
        }
        row += 1;
    }
    Ok(out)
}

/// Where an element of an expert's matrix stands in a tensor of three dimensions whose last one
/// runs fastest: the expert counts along its own dimension, the row and the column along the two
/// others, in this order.
pub proof fn law_expert_index(
    dims: Seq<u32>,
    axis: usize,
    expert: usize,
    row: usize,
    col: usize,
)
    requires
        dims.len() == 3,
        axis < 3,
    ensures
        expert_index(dims, axis, expert, row, col) == if axis == 0 {
            (expert * dims[1] + row) * dims[2] + col
        } else if axis == 1 {
            (row * dims[1] + expert) * dims[2] + col
        } else {
            (row * dims[1] + col) * dims[2] + expert
        },
        without_axis(dims, axis as int) == if axis == 0 {
            seq![dims[1], dims[2]]
        } else if axis == 1 {
            seq![dims[0], dims[2]]
        } else {
            seq![dims[0], dims[1]]
        },
{
    let c = expert_coords(axis, expert, row, col);
    reveal_with_fuel(row_index, 4);
    assert(c.len() == 3);
    assert(0 * dims[0] == 0) by (nonlinear_arith);
    assert(row_index(c, dims, 1) == c[0]);
    assert(row_index(c, dims, 2) == c[0] * dims[1] + c[1]);
    assert(row_index(c, dims, 3) == (c[0] * dims[1] + c[1]) * dims[2] + c[2]);
    let w = without_axis(dims, axis as int);
    if axis == 0 {
        assert(w =~= seq![dims[1], dims[2]]);
    } else if axis == 1 {
        assert(w =~= seq![dims[0], dims[2]]);
    } else {
        assert(w =~= seq![dims[0], dims[1]]);
    }
}

/// The experts of a quantised tensor stand one after the other: the first one at its start, each
/// with as many bytes as its matrix takes, and an expert is refused exactly where the tensor ends
/// before it does.
pub proof fn law_quant_experts_adjoin(len: nat, stride: nat, expert: usize)
    requires
        (expert + 1) * stride <= usize::MAX,
    ensures
        quant_slice_fault(len, stride, expert) is None <==> (expert + 1) * stride <= len,
        quant_slice_fault(len, stride, 0) is None <==> stride <= len,
{
    assert((expert + 1) * stride == expert * stride + stride) by (nonlinear_arith);
    assert(0 * stride == 0) by (nonlinear_arith);
    assert(stride <= (expert + 1) * stride) by (nonlinear_arith);
}

} // verus!
