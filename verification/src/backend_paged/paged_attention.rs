//! Reading of a paged cache for attention.
//!
//! For one query token and each head `h`, attention weighs the values `V[t, h, :]` of the cached
//! tokens by the softmax over `t` of `Q[h, :] . K[t, h, :]`. This module finds the rows; the
//! arithmetic on them is the caller's.

use vstd::prelude::*;

use crate::backend_paged::page_table::{
    law_append_read, lemma_row_range, slot_view, PageTable, PageView, TableView, PAGE_TOKENS,
};
use crate::slices::copy_words;

verus! {

/// `true` if an external paged kernel is built in. None is.
pub fn vendored_status() -> (r: bool)
    ensures
        !r,
{
    false
}

/// The key and the value of one token for one head.
#[derive(Debug)]
pub struct HeadRow {
    pub k: Vec<u32>,
    pub v: Vec<u32>,
}

/// What attention for one head reads: the query, and for each cached token its row, or `None`
/// for a token whose page is gone or that was never written.
#[derive(Debug)]
pub struct HeadInput {
    pub q: Vec<u32>,
    pub rows: Vec<Option<HeadRow>>,
}

/// Elements `h * head_dim ..` of a row of a page.
pub open spec fn head_part(buf: Seq<u32>, row: int, width: int, h: int, head_dim: int) -> Seq<u32> {
    buf.subrange(row * width + h * head_dim, row * width + h * head_dim + head_dim)
}

/// The key and the value that head `h` has for token `t`.
pub open spec fn head_row(table: TableView, t: int, h: int, head_dim: int) -> Option<
    (Seq<u32>, Seq<u32>),
> {
    match table.place(t) {
        None => None,
        Some((slot, row)) => {
            let page = table.pages[slot].unwrap();
            if row >= page.n_tokens {
                None
            } else {
                Some(
                    (
                        head_part(page.k, row, page.head_elements as int, h, head_dim),
                        head_part(page.v, row, page.head_elements as int, h, head_dim),
                    ),
                )
            }
        },
    }
}

/// Number of tokens that take part: the cache may hold more or fewer than asked for.
pub open spec fn live_tokens(table: TableView, seq_len: usize) -> usize {
    if seq_len < table.seq_len {
        seq_len
    } else {
        table.seq_len
    }
}

/// The row is what the head has for a token.
pub open spec fn is_head_row(row: Option<HeadRow>, expected: Option<(Seq<u32>, Seq<u32>)>) -> bool {
    match (row, expected) {
        (Some(r), Some((k, v))) => r.k@ == k && r.v@ == v,
        (None, None) => true,
        _ => false,
    }
}

/// The rows of the first `live` tokens are wide enough for the heads, where they were written.
pub open spec fn wide_enough(table: TableView, live: usize, width: int) -> bool {
    forall|t: int|
        0 <= t < live ==> (#[trigger] table.place(t) matches Some((slot, row))
            ==> row < table.pages[slot].unwrap().n_tokens
            ==> table.pages[slot].unwrap().head_elements >= width)
}

/// The input of head `h`.
pub open spec fn is_head_input(
    input: HeadInput,
    q: Seq<u32>,
    table: TableView,
    live: int,
    h: int,
    head_dim: int,
) -> bool {
    &&& input.q@ == q.subrange(h * head_dim, h * head_dim + head_dim)
    &&& input.rows@.len() == live
    &&& forall|t: int|
        0 <= t < live ==> is_head_row(#[trigger] input.rows@[t], head_row(table, t, h, head_dim))
}

proof fn lemma_head_range(h: int, n_heads: int, head_dim: int)
    requires
        0 <= h < n_heads,
        0 <= head_dim,
    ensures
        0 <= h * head_dim,
        h * head_dim + head_dim <= n_heads * head_dim,
{
    assert(0 <= h * head_dim && h * head_dim + head_dim <= n_heads * head_dim) by (nonlinear_arith)
        requires
            0 <= h,
            h + 1 <= n_heads,
            0 <= head_dim,
    ;
}

fn head_row_of(
    table: &PageTable,
    live: usize,
    t: usize,
    base: usize,
    head_dim: usize,
    Ghost(h): Ghost<int>,
) -> (r: Option<HeadRow>)
    requires
        table@.wf(),
        t < live,
        wide_enough(table@, live, base + head_dim),
        base == h * head_dim,
    ensures
        is_head_row(r, head_row(table@, t as int, h, head_dim as int)),
{
    let (slot, row): (usize, usize) = match table.lookup(t) {
        Some(place) => place,
        None => return None,
    };
    assert(table@.pages[slot as int] == slot_view(table.pages@[slot as int]));
    match &table.pages[slot] {
        Some(page) => {
            if row >= page.n_tokens {
                return None;
            }
            proof {
                lemma_row_range(row as int, page.head_elements as int);
                assert(page.k@.len() == page.k.len());
            }
            let from: usize = row * page.head_elements + base;
            let k: Vec<u32> = copy_words(page.k.as_slice(), from, from + head_dim);
            let v: Vec<u32> = copy_words(page.v.as_slice(), from, from + head_dim);
            Some(HeadRow { k, v })
        },
        None => None,
    }
}

/// What attention reads for each head.
///
/// `q` is the query of all heads, head by head. The table has to belong to `layer`, and the rows of
/// the tokens that take part have to be wide enough for all heads.
pub fn paged_attention_inputs(
    q: &[u32],
    kv_cache: &PageTable,
    layer: usize,
    seq_len: usize,
    n_heads: usize,
    head_dim: usize,
) -> (r: Vec<HeadInput>)
    requires
        kv_cache@.wf(),
        q@.len() == n_heads * head_dim,
        kv_cache@.layer == layer,
        wide_enough(kv_cache@, live_tokens(kv_cache@, seq_len), n_heads * head_dim),
    ensures
        r@.len() == n_heads,
        forall|h: int|
            0 <= h < n_heads ==> is_head_input(
                #[trigger] r@[h],
                q@,
                kv_cache@,
                live_tokens(kv_cache@, seq_len) as int,
                h,
                head_dim as int,
            ),
{
    let live: usize = if seq_len < kv_cache.seq_len {
        seq_len
    } else {
        kv_cache.seq_len
    };
    let mut out: Vec<HeadInput> = Vec::new();
    let mut h: usize = 0;
    assert(q@.len() == q.len());
    while h < n_heads
        invariant
            h <= n_heads,
            kv_cache@.wf(),
            q@.len() == n_heads * head_dim,
            q@.len() <= usize::MAX,
            wide_enough(kv_cache@, live, n_heads * head_dim),
            live == live_tokens(kv_cache@, seq_len),
            out@.len() == h,
            forall|i: int|
                0 <= i < h ==> is_head_input(
                    #[trigger] out@[i],
                    q@,
                    kv_cache@,
                    live as int,
                    i,
                    head_dim as int,
                ),
        decreases n_heads - h,
    {
        proof {
            lemma_head_range(h as int, n_heads as int, head_dim as int);
        }
        let base: usize = h * head_dim;
        let query: Vec<u32> = copy_words(q, base, base + head_dim);
        let mut rows: Vec<Option<HeadRow>> = Vec::new();
        let mut t: usize = 0;
        while t < live
            invariant
                t <= live,
                kv_cache@.wf(),
                base == h * head_dim,
                wide_enough(kv_cache@, live, base + head_dim),
                rows@.len() == t,
                forall|i: int|
                    0 <= i < t ==> is_head_row(
                        #[trigger] rows@[i],
                        head_row(kv_cache@, i, h as int, head_dim as int),
                    ),
            decreases live - t,
        {
            rows.push(head_row_of(kv_cache, live, t, base, head_dim, Ghost(h as int)));
            t += 1;
        }
        out.push(HeadInput { q: query, rows });
        h += 1;
    }
    out
}

/// Bytes of the keys and values of one layer at a context size.
pub open spec fn cache_bytes(ctx_size: nat, n_heads: nat, head_dim: nat) -> nat {
    (ctx_size / 16 + 1) * 16 * n_heads * head_dim * 4 * 2
}

/// Bytes of the keys and values of one layer at a context size.
pub fn page_cache_bytes(ctx_size: usize, n_heads: usize, head_dim: usize) -> (r: usize)
    requires
        cache_bytes(ctx_size as nat, n_heads as nat, head_dim as nat) <= usize::MAX,
        (ctx_size as nat / 16 + 1) * 16 * n_heads <= usize::MAX,
        (ctx_size as nat / 16 + 1) * 16 <= usize::MAX,
    ensures
        r == cache_bytes(ctx_size as nat, n_heads as nat, head_dim as nat),
{
    let n_pages: usize = ctx_size / PAGE_TOKENS + 1;
    let a: usize = n_pages * PAGE_TOKENS;
    let b: usize = a * n_heads;
    let ghost c = b as nat * head_dim as nat;
    assert(c * 4 * 2 <= usize::MAX);
    let elements: usize = b * head_dim;
    elements * 4 * 2
}

/// Reading a token for a head gives the part of its row that belongs to the head.
pub proof fn law_head_rows_cover(page: PageView, row: int, n_heads: int, h: int, head_dim: int, d: int)
    requires
        page.wf(),
        0 <= row < PAGE_TOKENS,
        0 <= h < n_heads,
        0 <= d < head_dim,
        page.head_elements == n_heads * head_dim,
    ensures
        head_part(page.k, row, page.head_elements as int, h, head_dim)[d] == page.key_row(row)[h
            * head_dim + d],
        head_part(page.v, row, page.head_elements as int, h, head_dim)[d] == page.value_row(row)[h
            * head_dim + d],
{
    lemma_row_range(row, page.head_elements as int);
    lemma_head_range(h, n_heads, head_dim);
}

/// A token that was appended is attended to: each head reads its own part of the key and of the
/// value that were appended.
pub proof fn law_appended_is_attended(
    t: TableView,
    k: Seq<u32>,
    v: Seq<u32>,
    n_heads: int,
    h: int,
    head_dim: int,
)
    requires
        t.wf(),
        t.accepts(k, v),
        k.len() == n_heads * head_dim,
        0 <= h < n_heads,
        0 <= head_dim,
    ensures
        head_row(t.with_token(k, v), t.seq_len as int, h, head_dim) == Some(
            (
                k.subrange(h * head_dim, h * head_dim + head_dim),
                v.subrange(h * head_dim, h * head_dim + head_dim),
            ),
        ),
        live_tokens(t.with_token(k, v), (t.seq_len + 1) as usize) == t.seq_len + 1,
{
    let after = t.with_token(k, v);
    let slot = t.seq_len as int / PAGE_TOKENS as int;
    let row = t.seq_len as int % PAGE_TOKENS as int;
    law_append_read(t, k, v, t.seq_len as int);
    let page = after.pages[slot].unwrap();
    assert(page.wf());
    let w = page.head_elements as int;
    assert(w == k.len());
    lemma_row_range(row, w);
    lemma_head_range(h, n_heads, head_dim);
    assert(page.n_tokens > row);
    let part = head_part(page.k, row, w, h, head_dim);
    assert(part =~= page.key_row(row).subrange(h * head_dim, h * head_dim + head_dim));
    let other = head_part(page.v, row, w, h, head_dim);
    assert(other =~= page.value_row(row).subrange(h * head_dim, h * head_dim + head_dim));
}

/// A head's input: its own part of the query, and for each token that counts the rows that it
/// reads, in the order of the tokens.
pub proof fn law_head_input(
    input: HeadInput,
    q: Seq<u32>,
    table: TableView,
    seq_len: usize,
    h: int,
    n_heads: int,
    head_dim: int,
    d: int,
)
    requires
        is_head_input(input, q, table, live_tokens(table, seq_len) as int, h, head_dim),
        q.len() == n_heads * head_dim,
        0 <= h < n_heads,
        0 <= d < head_dim,
    ensures
        input.q@.len() == head_dim,
        input.q@[d] == q[h * head_dim + d],
        input.rows@.len() <= seq_len,
        input.rows@.len() <= table.seq_len,
        input.rows@.len() == seq_len || input.rows@.len() == table.seq_len,
{
    lemma_head_range(h, n_heads, head_dim);
}

} // verus!
