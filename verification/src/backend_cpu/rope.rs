//! Which elements the rotary position embedding rotates, and by which position.
//!
//! The buffer holds for each token all heads, and for each head `head_dim` elements. The rotation
//! of a pair is the caller's.

use vstd::arithmetic::div_mod::{lemma_fundamental_div_mod, lemma_fundamental_div_mod_converse};
use vstd::prelude::*;

use crate::float_bits::{bits_gt, gt};

verus! {

/// Why a buffer is not rotated.
#[derive(Debug, Clone, Copy, PartialEq, Eq, Structural)]
pub enum RopeFault {
    /// The size of a head is odd.
    OddHead,
    /// The base of the frequencies is not a number above 0.
    Base,
    /// The buffer does not hold whole tokens.
    Length,
}

/// Checks a buffer of `len` elements, and gives the number of its tokens. `base` is the bit pattern
/// of the base of the frequencies.
pub fn rope_tokens(len: usize, n_heads: usize, head_dim: usize, base: u32) -> (r: Result<
    usize,
    RopeFault,
>)
    requires
        head_dim % 2 == 0 && gt(base, 0) ==> 0 < n_heads * head_dim <= usize::MAX,
    ensures
        r == if head_dim % 2 != 0 {
            Err::<usize, RopeFault>(RopeFault::OddHead)
        } else if !gt(base, 0) {
            Err::<usize, RopeFault>(RopeFault::Base)
        } else if len as int % (n_heads * head_dim) != 0 {
            Err::<usize, RopeFault>(RopeFault::Length)
        } else {
            Ok::<usize, RopeFault>((len as int / (n_heads * head_dim)) as usize)
        },
        r matches Ok(t) ==> t * (n_heads * head_dim) == len,
{
    if head_dim % 2 != 0 {
        return Err(RopeFault::OddHead);
    }
    if !bits_gt(base, 0) {
        return Err(RopeFault::Base);
    }
    let width: usize = n_heads * head_dim;
    if len % width != 0 {
        return Err(RopeFault::Length);
    }
    proof {
        lemma_fundamental_div_mod(len as int, width as int);
        let q = len as int / width as int;
        assert(q * width == width * q) by (nonlinear_arith);
    }
    Ok(len / width)
}

/// A pair of elements that is rotated together, and the position that gives its angle.
#[derive(Debug, Clone, Copy, PartialEq, Eq, Structural)]
pub struct RopePair {
    pub first: usize,
    pub second: usize,
    pub pos: usize,
}

/// Where a head of a token begins.
pub open spec fn head_start(token: int, head: int, n_heads: int, head_dim: int) -> int {
    (token * n_heads + head) * head_dim
}

proof fn lemma_head_bound(token: int, head: int, tokens: int, n_heads: int, head_dim: int)
    requires
        0 <= token < tokens,
        0 <= head < n_heads,
        0 < head_dim,
    ensures
        0 <= token * n_heads,
        0 <= token * n_heads + head < tokens * n_heads,
        token * n_heads + head <= head_start(token, head, n_heads, head_dim),
        head_start(token, head, n_heads, head_dim) + head_dim <= tokens * n_heads * head_dim,
{
    assert(0 <= token * n_heads && token * n_heads + n_heads <= tokens * n_heads)
        by (nonlinear_arith)
        requires
            0 <= token < tokens,
            0 < n_heads,
    ;
    let row = token * n_heads + head;
    let rows = tokens * n_heads;
    assert(row <= row * head_dim && row * head_dim + head_dim <= rows * head_dim)
        by (nonlinear_arith)
        requires
            0 <= row < rows,
            0 < head_dim,
    ;
}

/// Pair `i` of a head of a token, in a buffer whose first token stands at `pos`.
pub fn rope_pair(
    pos: usize,
    token: usize,
    head: usize,
    i: usize,
    tokens: usize,
    n_heads: usize,
    head_dim: usize,
) -> (p: RopePair)
    requires
        token < tokens,
        head < n_heads,
        i < head_dim / 2,
        tokens * n_heads * head_dim <= usize::MAX,
        pos + token <= usize::MAX,
    ensures
        p.first == head_start(token as int, head as int, n_heads as int, head_dim as int) + 2 * i,
        p.second == p.first + 1,
        p.second < tokens * n_heads * head_dim,
        p.pos == pos + token,
{
    proof {
        lemma_head_bound(
            token as int,
            head as int,
            tokens as int,
            n_heads as int,
            head_dim as int,
        );
    }
    let start: usize = (token * n_heads + head) * head_dim;
    RopePair { first: start + 2 * i, second: start + 2 * i + 1, pos: pos + token }
}

/// Each element of the buffer belongs to exactly one pair: it lies in pair `e % head_dim / 2` of
/// head `e / head_dim % n_heads` of token `e / head_dim / n_heads`, and in no other.
pub proof fn law_pairs_partition(
    e: int,
    tokens: int,
    n_heads: int,
    head_dim: int,
    token: int,
    head: int,
    i: int,
)
    requires
        n_heads > 0,
        head_dim > 0,
        head_dim % 2 == 0,
        0 <= e < tokens * n_heads * head_dim,
        0 <= token,
        0 <= head < n_heads,
        0 <= i < head_dim / 2,
    ensures
        0 <= e / head_dim / n_heads < tokens,
        0 <= (e / head_dim) % n_heads < n_heads,
        0 <= (e % head_dim) / 2 < head_dim / 2,
        ({
            let first = head_start(token, head, n_heads, head_dim) + 2 * i;
            (e == first || e == first + 1) <==> token == e / head_dim / n_heads && head == (e
                / head_dim) % n_heads && i == (e % head_dim) / 2
        }),
{
    let row = e / head_dim;
    let rest = e % head_dim;
    lemma_fundamental_div_mod(e, head_dim);
    assert(0 <= row < tokens * n_heads) by (nonlinear_arith)
        requires
            e == head_dim * row + rest,
            0 <= rest < head_dim,
            0 <= e < tokens * n_heads * head_dim,
            head_dim > 0,
    ;
    lemma_fundamental_div_mod(row, n_heads);
    let t = row / n_heads;
    let h = row % n_heads;
    assert(0 <= t < tokens) by (nonlinear_arith)
        requires
            row == n_heads * t + h,
            0 <= h < n_heads,
            0 <= row < tokens * n_heads,
            n_heads > 0,
    ;
    assert(t * n_heads + h == row) by (nonlinear_arith)
        requires
            row == n_heads * t + h,
    ;
    assert(row * head_dim + rest == e) by (nonlinear_arith)
        requires
            e == head_dim * row + rest,
    ;
    let first = head_start(token, head, n_heads, head_dim) + 2 * i;
    if e == first || e == first + 1 {
        let r = token * n_heads + head;
        lemma_fundamental_div_mod_converse(e, head_dim, r, e - r * head_dim);
        lemma_fundamental_div_mod_converse(r, n_heads, token, head);
    }
}

} // verus!
