//! Which elements the matrix products touch, and which buffers they refuse.
//!
//! The products and sums themselves are the caller's. `a` is row-major with `m` rows of `k`
//! elements, `b` has `k` rows of `n`, and the result is row-major with `m` rows of `n`.

use vstd::arithmetic::div_mod::{
    lemma_div_is_ordered, lemma_fundamental_div_mod, lemma_fundamental_div_mod_converse,
};
use vstd::prelude::*;
use vstd::string::StringExecFns;

use crate::text::{dec, push_dec};

verus! {

/// Elements per Q8_0 block.
pub const Q8_0_BLOCK: usize = 32;

/// Elements per Q4_K block.
pub const Q4_K_BLOCK: usize = 256;

/// What is wrong with a product: the buffer that does not have the length that it must have.
#[derive(Debug, Clone, Copy, PartialEq, Eq, Structural)]
pub enum MatmulFault {
    /// The activations.
    A,
    /// The weights.
    B,
    /// The result.
    C,
}

/// `len` is `rows` times `cols`.
pub fn is_product(len: usize, rows: usize, cols: usize) -> (r: bool)
    ensures
        r == (len == rows * cols),
{
    match rows.checked_mul(cols) {
        Some(n) => n == len,
        None => false,
    }
}

/// The first buffer of a plain product that has the wrong length.
pub fn check_matmul_f32(a: usize, b: usize, c: usize, m: usize, n: usize, k: usize) -> (r: Option<
    MatmulFault,
>)
    ensures
        r == if a != m * k {
            Some(MatmulFault::A)
        } else if b != k * n {
            Some(MatmulFault::B)
        } else if c != m * n {
            Some(MatmulFault::C)
        } else {
            None
        },
{
    if !is_product(a, m, k) {
        Some(MatmulFault::A)
    } else if !is_product(b, k, n) {
        Some(MatmulFault::B)
    } else if !is_product(c, m, n) {
        Some(MatmulFault::C)
    } else {
        None
    }
}

/// The first buffer of a product with rows of quantised weights that has the wrong length:
/// `rows` is the number of those rows.
pub fn check_matmul_blocks(a: usize, rows: usize, c: usize, m: usize, n: usize, k: usize) -> (r:
    Option<MatmulFault>)
    ensures
        r == if a != m * k {
            Some(MatmulFault::A)
        } else if rows != n {
            Some(MatmulFault::B)
        } else if c != m * n {
            Some(MatmulFault::C)
        } else {
            None
        },
{
    if !is_product(a, m, k) {
        Some(MatmulFault::A)
    } else if rows != n {
        Some(MatmulFault::B)
    } else if !is_product(c, m, n) {
        Some(MatmulFault::C)
    } else {
        None
    }
}

/// The place of the element in row `row` and column `col`.
pub open spec fn place(row: int, col: int, cols: int) -> int {
    row * cols + col
}

/// An element of a matrix lies in it.
pub proof fn lemma_place_bound(row: int, col: int, rows: int, cols: int)
    requires
        0 <= row < rows,
        0 <= col < cols,
    ensures
        0 <= row * cols,
        0 <= place(row, col, cols) < rows * cols,
{
    assert(0 <= row * cols && row * cols + cols <= rows * cols) by (nonlinear_arith)
        requires
            0 <= row < rows,
            0 < cols,
    ;
}

/// Each element of the result is the one of exactly one row and column, so each is written once.
pub proof fn law_places_distinct(i: int, row: int, col: int, rows: int, cols: int)
    requires
        cols > 0,
        0 <= i < rows * cols,
    ensures
        0 <= i / cols < rows,
        0 <= i % cols < cols,
        place(i / cols, i % cols, cols) == i,
        0 <= col < cols && place(row, col, cols) == i ==> row == i / cols && col == i % cols,
{
    lemma_fundamental_div_mod(i, cols);
    let q = i / cols;
    assert(place(q, i % cols, cols) == i) by (nonlinear_arith)
        requires
            i == cols * q + i % cols,
            place(q, i % cols, cols) == q * cols + i % cols,
    ;
    assert(0 <= q < rows) by (nonlinear_arith)
        requires
            i == cols * q + i % cols,
            0 <= i % cols < cols,
            0 <= i < rows * cols,
            cols > 0,
    ;
    if 0 <= col < cols && place(row, col, cols) == i {
        assert(i == row * cols + col);
        lemma_fundamental_div_mod_converse(i, cols, row, col);
    }
}

/// The elements that meet in a term of the product: one of `a`, one of `b`, and the one of the
/// result that the term is added to.
#[derive(Debug, Clone, Copy, PartialEq, Eq, Structural)]
pub struct MatmulTerm {
    pub a: usize,
    pub b: usize,
    pub c: usize,
}

/// Term `p` of the element in row `i` and column `j` of the result.
pub fn matmul_term(i: usize, j: usize, p: usize, m: usize, n: usize, k: usize) -> (t: MatmulTerm)
    requires
        i < m,
        j < n,
        p < k,
        m * k <= usize::MAX,
        k * n <= usize::MAX,
        m * n <= usize::MAX,
    ensures
        t.a == i * k + p,
        t.b == p * n + j,
        t.c == i * n + j,
        t.a < m * k,
        t.b < k * n,
        t.c < m * n,
{
    proof {
        lemma_place_bound(i as int, p as int, m as int, k as int);
        lemma_place_bound(p as int, j as int, k as int, n as int);
        lemma_place_bound(i as int, j as int, m as int, n as int);
    }
    MatmulTerm { a: i * k + p, b: p * n + j, c: i * n + j }
}

// ---- Blocks ----

/// Number of blocks of `size` elements that a row of `k` elements takes.
pub open spec fn block_count(k: int, size: int) -> int {
    if k % size == 0 {
        k / size
    } else {
        k / size + 1
    }
}

/// Number of blocks of `size` elements that a row of `k` elements takes.
pub fn blocks_per_row(k: usize, size: usize) -> (n: usize)
    requires
        size > 1,
    ensures
        n == block_count(k as int, size as int),
{
    let whole: usize = k / size;
    if k % size == 0 {
        whole
    } else {
        assert(whole <= k / 2) by (nonlinear_arith)
            requires
                whole == k / size,
                size >= 2,
        ;
        whole + 1
    }
}

/// The elements of a row that a block covers.
#[derive(Debug, Clone, Copy, PartialEq, Eq, Structural)]
pub struct BlockSpan {
    pub start: usize,
    pub end: usize,
}

proof fn lemma_block_start(k: int, size: int, block: int)
    requires
        k >= 0,
        size > 1,
        0 <= block < block_count(k, size),
    ensures
        0 <= block * size < k,
{
    lemma_fundamental_div_mod(k, size);
    let q = k / size;
    assert(0 <= block * size) by (nonlinear_arith)
        requires
            block >= 0,
            size > 1,
    ;
    if k % size == 0 {
        assert(block * size < k) by (nonlinear_arith)
            requires
                block < q,
                k == size * q,
                size > 1,
        ;
    } else {
        assert(block * size < k) by (nonlinear_arith)
            requires
                block <= q,
                k == size * q + k % size,
                k % size > 0,
                size > 1,
        ;
    }
}

/// The elements of a row that block `block` covers: the last block may cover fewer than its size.
pub fn block_span(k: usize, size: usize, block: usize) -> (s: BlockSpan)
    requires
        size > 1,
        block < block_count(k as int, size as int),
    ensures
        s.start == block * size,
        s.end == if block * size + size < k {
            block * size + size
        } else {
            k as int
        },
        s.start < s.end <= k,
        s.end - s.start <= size,
{
    proof {
        lemma_block_start(k as int, size as int, block as int);
    }
    let start: usize = block * size;
    let end: usize = if size < k - start {
        start + size
    } else {
        k
    };
    BlockSpan { start, end }
}

/// The blocks of a row cover each of its elements exactly once: element `p` is element `p % size`
/// of block `p / size`, and lies in the span of no other block.
pub proof fn law_blocks_partition(k: int, size: int, p: int, block: int)
    requires
        size > 1,
        0 <= p < k,
        0 <= block < block_count(k, size),
    ensures
        0 <= p / size < block_count(k, size),
        (p / size) * size + p % size == p,
        0 <= p % size < size,
        (block * size <= p < block * size + size) <==> block == p / size,
{
    lemma_fundamental_div_mod(p, size);
    lemma_fundamental_div_mod(k, size);
    let q = p / size;
    assert(q * size == size * q) by (nonlinear_arith);
    lemma_div_is_ordered(p, k, size);
    if k % size == 0 && q == k / size {
        assert(size * q == k);
        assert(false);
    }
    if block * size <= p < block * size + size {
        lemma_fundamental_div_mod_converse(p, size, block, p - block * size);
    }
}

/// What is said of a row of weights with too few blocks.
pub open spec fn short_row(kernel: Seq<char>, row: usize, have: usize, need: usize) -> Seq<char> {
    kernel + ": row "@ + dec(row as nat) + " has "@ + dec(have as nat) + " blocks, need >= "@ + dec(
        need as nat,
    )
}

/// Checks that a row of weights has enough blocks, and says what is wrong where it has not.
/// `kernel` is the name of the product.
pub fn check_row_blocks(kernel: &str, row: usize, have: usize, k: usize, size: usize) -> (r: Option<
    String,
>)
    requires
        size > 1,
    ensures
        match r {
            Some(m) => have < block_count(k as int, size as int) && m@ == short_row(
                kernel@,
                row,
                have,
                block_count(k as int, size as int) as usize,
            ),
            None => have >= block_count(k as int, size as int),
        },
{
    let need: usize = blocks_per_row(k, size);
    if have >= need {
        return None;
    }
    let mut m: String = String::from_str(kernel);
    m.append(": row ");
    push_dec(&mut m, row as u64);
    m.append(" has ");
    push_dec(&mut m, have as u64);
    m.append(" blocks, need >= ");
    push_dec(&mut m, need as u64);
    Some(m)
}

/// Checks the buffers of a product over prepared views of the activations: one view per block of
/// each row of weights.
pub fn matmul_q4_k_via_q8(views: usize, rows: usize, out: usize, m: usize, n: usize, k: usize) -> (r:
    Result<(), &'static str>)
    ensures
        if views != n * block_count(k as int, Q4_K_BLOCK as int) {
            r matches Err(e) && e@
                == "matmul_q4_k_via_q8: q8 view count must equal n * blocks_per_row"@
        } else if rows != n {
            r matches Err(e) && e@ == "matmul_q4_k_via_q8: weights outer length must be n"@
        } else if out != m * n {
            r matches Err(e) && e@ == "matmul_q4_k_via_q8: out length mismatch"@
        } else {
            r is Ok
        },
{
    let blocks: usize = blocks_per_row(k, Q4_K_BLOCK);
    if !is_product(views, n, blocks) {
        return Err("matmul_q4_k_via_q8: q8 view count must equal n * blocks_per_row");
    }
    if rows != n {
        return Err("matmul_q4_k_via_q8: weights outer length must be n");
    }
    if !is_product(out, m, n) {
        return Err("matmul_q4_k_via_q8: out length mismatch");
    }
    Ok(())
}

/// The view of the activations that a block of a row of weights is multiplied with.
pub fn view_index(row: usize, block: usize, n: usize, blocks: usize) -> (i: usize)
    requires
        row < n,
        block < blocks,
        n * blocks <= usize::MAX,
    ensures
        i == row * blocks + block,
        i < n * blocks,
{
    proof {
        lemma_place_bound(row as int, block as int, n as int, blocks as int);
    }
    row * blocks + block
}

} // verus!
