//! Attention over a contiguous cache: which elements each head reads.
//!
//! The query is laid out as `[n_heads, head_dim]`, the caches as `[seq_len, n_heads, head_dim]`.
//! The dot products and the softmax are the caller's.

use vstd::prelude::*;

use crate::slices::copy_words;

verus! {

/// What one head attends over: its query, and its row of K and of V at each position.
#[derive(Debug)]
pub struct AttentionHead {
    pub q: Vec<u32>,
    pub k: Vec<Vec<u32>>,
    pub v: Vec<Vec<u32>>,
}

/// The part of row `t` that belongs to head `h`.
pub open spec fn head_slice(
    cache: Seq<u32>,
    t: int,
    h: int,
    n_heads: int,
    head_dim: int,
) -> Seq<u32> {
    let start = (t * n_heads + h) * head_dim;
    cache.subrange(start, start + head_dim)
}

/// The rows are those of head `h`, position by position.
pub open spec fn are_head_rows(
    rows: Seq<Vec<u32>>,
    cache: Seq<u32>,
    seq_len: int,
    h: int,
    n_heads: int,
    head_dim: int,
) -> bool {
    rows.len() == seq_len && forall|t: int|
        0 <= t < seq_len ==> (#[trigger] rows[t])@ == head_slice(cache, t, h, n_heads, head_dim)
}

/// The input of head `h`.
pub open spec fn is_attention_head(
    head: AttentionHead,
    q: Seq<u32>,
    k: Seq<u32>,
    v: Seq<u32>,
    seq_len: int,
    h: int,
    n_heads: int,
    head_dim: int,
) -> bool {
    &&& head.q@ == head_slice(q, 0, h, n_heads, head_dim)
    &&& are_head_rows(head.k@, k, seq_len, h, n_heads, head_dim)
    &&& are_head_rows(head.v@, v, seq_len, h, n_heads, head_dim)
}

/// Lengths of the buffers of an attention.
#[derive(Debug, Clone, Copy, PartialEq, Eq, Structural)]
pub struct AttentionLens {
    pub q: usize,
    pub k_cache: usize,
    pub v_cache: usize,
    pub out: usize,
}

/// What stands against an attention with these sizes.
pub open spec fn attention_fault(
    lens: AttentionLens,
    seq_len: usize,
    n_heads: usize,
    head_dim: usize,
) -> Option<Seq<char>> {
    if head_dim == 0 || n_heads == 0 {
        Some("attention_decode: head_dim and n_heads must be > 0"@)
    } else if lens.q != n_heads * head_dim {
        Some("attention_decode: q length must equal n_heads * head_dim"@)
    } else if lens.k_cache != seq_len * n_heads * head_dim {
        Some("attention_decode: k_cache length must equal seq_len * n_heads * head_dim"@)
    } else if lens.v_cache != seq_len * n_heads * head_dim {
        Some("attention_decode: v_cache length must equal seq_len * n_heads * head_dim"@)
    } else if lens.out != n_heads * head_dim {
        Some("attention_decode: out length must equal n_heads * head_dim"@)
    } else {
        None
    }
}

/// What stands against an attention with these sizes and a scratch buffer for the scores.
pub open spec fn scratch_fault(
    lens: AttentionLens,
    seq_len: usize,
    n_heads: usize,
    head_dim: usize,
    scratch: usize,
) -> Option<Seq<char>> {
    if scratch < seq_len {
        Some("attention_decode_with_scratch: scratch shorter than seq_len"@)
    } else if head_dim == 0 || n_heads == 0 {
        Some("attention_decode_with_scratch: head_dim and n_heads must be > 0"@)
    } else if lens.q != n_heads * head_dim {
        Some("attention_decode_with_scratch: q length must equal n_heads * head_dim"@)
    } else if lens.k_cache != seq_len * n_heads * head_dim {
        Some("attention_decode_with_scratch: k_cache length mismatch"@)
    } else if lens.v_cache != seq_len * n_heads * head_dim {
        Some("attention_decode_with_scratch: v_cache length mismatch"@)
    } else if lens.out != n_heads * head_dim {
        Some("attention_decode_with_scratch: out length mismatch"@)
    } else {
        None
    }
}

/// The sizes of an attention can be counted on this machine.
pub open spec fn attention_countable(seq_len: usize, n_heads: usize, head_dim: usize) -> bool {
    n_heads * head_dim <= usize::MAX && seq_len * n_heads <= usize::MAX && seq_len * n_heads
        * head_dim <= usize::MAX
}

/// Checks the sizes of an attention.
pub fn check_attention(
    lens: AttentionLens,
    seq_len: usize,
    n_heads: usize,
    head_dim: usize,
) -> (r: Result<(), &'static str>)
    requires
        attention_countable(seq_len, n_heads, head_dim),
    ensures
        match attention_fault(lens, seq_len, n_heads, head_dim) {
            Some(text) => r matches Err(m) && m@ == text,
            None => r is Ok,
        },
{
    if head_dim == 0 || n_heads == 0 {
        return Err("attention_decode: head_dim and n_heads must be > 0");
    }
    if lens.q != n_heads * head_dim {
        return Err("attention_decode: q length must equal n_heads * head_dim");
    }
    if lens.k_cache != seq_len * n_heads * head_dim {
        return Err(
            "attention_decode: k_cache length must equal seq_len * n_heads * head_dim",
        );
    }
    if lens.v_cache != seq_len * n_heads * head_dim {
        return Err(
            "attention_decode: v_cache length must equal seq_len * n_heads * head_dim",
        );
    }
    if lens.out != n_heads * head_dim {
        return Err("attention_decode: out length must equal n_heads * head_dim");
    }
    Ok(())
}

/// Checks the sizes of an attention with a scratch buffer for the scores.
pub fn check_attention_with_scratch(
    lens: AttentionLens,
    seq_len: usize,
    n_heads: usize,
    head_dim: usize,
    scratch: usize,
) -> (r: Result<(), &'static str>)
    requires
        attention_countable(seq_len, n_heads, head_dim),
    ensures
        match scratch_fault(lens, seq_len, n_heads, head_dim, scratch) {
            Some(text) => r matches Err(m) && m@ == text,
            None => r is Ok,
        },
{
    if scratch < seq_len {
        return Err("attention_decode_with_scratch: scratch shorter than seq_len");
    }
    if head_dim == 0 || n_heads == 0 {
        return Err("attention_decode_with_scratch: head_dim and n_heads must be > 0");
    }
    if lens.q != n_heads * head_dim {
        return Err("attention_decode_with_scratch: q length must equal n_heads * head_dim");
    }
    if lens.k_cache != seq_len * n_heads * head_dim {
        return Err("attention_decode_with_scratch: k_cache length mismatch");
    }
    if lens.v_cache != seq_len * n_heads * head_dim {
        return Err("attention_decode_with_scratch: v_cache length mismatch");
    }
    if lens.out != n_heads * head_dim {
        return Err("attention_decode_with_scratch: out length mismatch");
    }
    Ok(())
}

proof fn lemma_head_slice_bound(t: int, h: int, seq_len: int, n_heads: int, head_dim: int)
    requires
        0 <= t < seq_len,
        0 <= h < n_heads,
        head_dim >= 0,
    ensures
        0 <= t * n_heads,
        t * n_heads + h < seq_len * n_heads,
        0 <= (t * n_heads + h) * head_dim,
        (t * n_heads + h) * head_dim + head_dim <= seq_len * n_heads * head_dim,
{
    assert(0 <= t * n_heads && t * n_heads + n_heads <= seq_len * n_heads) by (nonlinear_arith)
        requires
            0 <= t < seq_len,
            n_heads > 0,
    ;
    let row = t * n_heads + h;
    let rows = seq_len * n_heads;
    assert(0 <= row * head_dim && row * head_dim + head_dim <= rows * head_dim)
        by (nonlinear_arith)
        requires
            0 <= row < rows,
            head_dim >= 0,
    ;
}

/// The part of each head in a row, taken in turn, is the whole row: the heads share nothing and
/// leave nothing out.
pub proof fn law_heads_cover_row(cache: Seq<u32>, t: int, seq_len: int, n_heads: int, head_dim: int, i: int)
    requires
        0 <= t < seq_len,
        n_heads > 0,
        head_dim > 0,
        cache.len() == seq_len * n_heads * head_dim,
        0 <= i < n_heads * head_dim,
    ensures
        0 <= i / head_dim < n_heads,
        cache[t * (n_heads * head_dim) + i] == head_slice(
            cache,
            t,
            i / head_dim,
            n_heads,
            head_dim,
        )[i % head_dim],
{
    let h = i / head_dim;
    let d = i % head_dim;
    vstd::arithmetic::div_mod::lemma_fundamental_div_mod(i, head_dim);
    assert(0 <= h < n_heads) by (nonlinear_arith)
        requires
            i == head_dim * h + d,
            0 <= d < head_dim,
            0 <= i < n_heads * head_dim,
    ;
    lemma_head_slice_bound(t, h, seq_len, n_heads, head_dim);
    assert((t * n_heads + h) * head_dim + d == t * (n_heads * head_dim) + i) by (nonlinear_arith)
        requires
            i == head_dim * h + d,
    ;
}

fn head_rows(
    cache: &[u32],
    seq_len: usize,
    h: usize,
    n_heads: usize,
    head_dim: usize,
) -> (r: Vec<Vec<u32>>)
    requires
        h < n_heads,
        attention_countable(seq_len, n_heads, head_dim),
        cache@.len() == seq_len * n_heads * head_dim,
    ensures
        are_head_rows(
            r@,
            cache@,
            seq_len as int,
            h as int,
            n_heads as int,
            head_dim as int,
        ),
{
    let mut rows: Vec<Vec<u32>> = Vec::new();
    let mut t: usize = 0;
    while t < seq_len
        invariant
            t <= seq_len,
            h < n_heads,
            attention_countable(seq_len, n_heads, head_dim),
            cache@.len() == seq_len * n_heads * head_dim,
            rows@.len() == t,
            forall|j: int|
                0 <= j < t ==> (#[trigger] rows@[j])@ == head_slice(
                    cache@,
                    j,
                    h as int,
                    n_heads as int,
                    head_dim as int,
                ),
        decreases seq_len - t,
    {
        proof {
            lemma_head_slice_bound(
                t as int,
                h as int,
                seq_len as int,
                n_heads as int,
                head_dim as int,
            );
        }
        let start: usize = (t * n_heads + h) * head_dim;
        let row: Vec<u32> = copy_words(cache, start, start + head_dim);
        rows.push(row);
        t += 1;
    }
    rows
}

/// What each head attends over. Sizes that do not fit together are refused.
pub fn attention_heads(
    q: &[u32],
    k_cache: &[u32],
    v_cache: &[u32],
    out_len: usize,
    seq_len: usize,
    n_heads: usize,
    head_dim: usize,
) -> (r: Result<Vec<AttentionHead>, &'static str>)
    requires
        attention_countable(seq_len, n_heads, head_dim),
    ensures
        match attention_fault(
            AttentionLens {
                q: q@.len() as usize,
                k_cache: k_cache@.len() as usize,
                v_cache: v_cache@.len() as usize,
                out: out_len,
            },
            seq_len,
            n_heads,
            head_dim,
        ) {
            Some(text) => r matches Err(m) && m@ == text,
            None => {
                &&& r matches Ok(heads)
                &&& heads@.len() == n_heads
                &&& forall|h: int|
                    0 <= h < n_heads ==> is_attention_head(
                        #[trigger] heads@[h],
                        q@,
                        k_cache@,
                        v_cache@,
                        seq_len as int,
                        h,
                        n_heads as int,
                        head_dim as int,
                    )
            },
        },
{
    check_attention(
        AttentionLens {
            q: q.len(),
            k_cache: k_cache.len(),
            v_cache: v_cache.len(),
            out: out_len,
        },
        seq_len,
        n_heads,
        head_dim,
    )?;
    let mut heads: Vec<AttentionHead> = Vec::new();
    let mut h: usize = 0;
    while h < n_heads
        invariant
            h <= n_heads,
            attention_countable(seq_len, n_heads, head_dim),
            q@.len() == n_heads * head_dim,
            k_cache@.len() == seq_len * n_heads * head_dim,
            v_cache@.len() == seq_len * n_heads * head_dim,
            heads@.len() == h,
            forall|j: int|
                0 <= j < h ==> is_attention_head(
                    #[trigger] heads@[j],
                    q@,
                    k_cache@,
                    v_cache@,
                    seq_len as int,
                    j,
                    n_heads as int,
                    head_dim as int,
                ),
        decreases n_heads - h,
    {
        proof {
            assert(1 * n_heads * head_dim == n_heads * head_dim) by (nonlinear_arith);
            lemma_head_slice_bound(0, h as int, 1, n_heads as int, head_dim as int);
            assert(0 * n_heads == 0) by (nonlinear_arith);
        }
        let start: usize = h * head_dim;
        let head = AttentionHead {
            q: copy_words(q, start, start + head_dim),
            k: head_rows(k_cache, seq_len, h, n_heads, head_dim),
            v: head_rows(v_cache, seq_len, h, n_heads, head_dim),
        };
        heads.push(head);
        h += 1;
    }
    Ok(heads)
}

/// Element `d` of what head `h` reads: of the query its own part, and of the key and the value of
/// each position the same part of that position's row.
pub proof fn law_head_inputs(
    head: AttentionHead,
    q: Seq<u32>,
    k: Seq<u32>,
    v: Seq<u32>,
    seq_len: int,
    h: int,
    n_heads: int,
    head_dim: int,
    t: int,
    d: int,
)
    requires
        is_attention_head(head, q, k, v, seq_len, h, n_heads, head_dim),
        q.len() == n_heads * head_dim,
        k.len() == seq_len * n_heads * head_dim,
        v.len() == seq_len * n_heads * head_dim,
        0 <= h < n_heads,
        0 <= t < seq_len,
        0 <= d < head_dim,
    ensures
        head.q@.len() == head_dim,
        head.k@.len() == seq_len,
        head.v@.len() == seq_len,
        head.q@[d] == q[h * head_dim + d],
        head.k@[t]@[d] == k[t * (n_heads * head_dim) + h * head_dim + d],
        head.v@[t]@[d] == v[t * (n_heads * head_dim) + h * head_dim + d],
{
    lemma_head_slice_bound(0, h, 1, n_heads, head_dim);
    lemma_head_slice_bound(t, h, seq_len, n_heads, head_dim);
    assert((t * n_heads + h) * head_dim == t * (n_heads * head_dim) + h * head_dim
        && (0 * n_heads + h) * head_dim == h * head_dim && 1 * n_heads * head_dim == n_heads
        * head_dim) by (nonlinear_arith);
    assert(head.k@[t]@ == head_slice(k, t, h, n_heads, head_dim));
    assert(head.v@[t]@ == head_slice(v, t, h, n_heads, head_dim));
}

} // verus!
