//! Key-value cache with three buffers per layer.
//!
//! A layer has raw rows, compressed rows and indexer rows, one of each per token position. Rows
//! hold single-precision numbers by their bit patterns; what is not in use is zero.

use vstd::prelude::*;
use vstd::string::StringExecFns;

use crate::backend_paged::page_table::overwritten;
use crate::text::{dec, push_dec};
use crate::types::{Ds4Error, Ds4ErrorKind, Ds4Result};

verus! {

/// Width of a raw row where the model does not give one.
pub const DEFAULT_HEAD_DIM: usize = 128;

/// Width of a compressed row where the model does not give one.
pub const DEFAULT_COMPRESSED_DIM: usize = 64;

/// Width of an indexer row where the model does not give one.
pub const DEFAULT_INDEXER_DIM: usize = 64;

/// Key-value cache of all layers.
#[derive(Debug)]
pub struct KvCache {
    ctx_size: usize,
    n_layers: usize,
    head_dim: usize,
    compressed_dim: usize,
    indexer_dim: usize,
    raw_swa: Vec<Vec<u32>>,
    compressed: Vec<Vec<u32>>,
    index_comp_kv: Vec<Vec<u32>>,
}

/// What a cache holds.
pub struct CacheView {
    pub ctx_size: usize,
    pub n_layers: usize,
    pub head_dim: usize,
    pub compressed_dim: usize,
    pub indexer_dim: usize,
    pub raw: Seq<Seq<u32>>,
    pub compressed: Seq<Seq<u32>>,
    pub index: Seq<Seq<u32>>,
}

/// The buffers of the layers.
pub open spec fn buffers(b: Seq<Vec<u32>>) -> Seq<Seq<u32>> {
    b.map_values(|v: Vec<u32>| v@)
}

/// `n` zeros.
pub open spec fn zeros(n: int) -> Seq<u32> {
    Seq::new(n as nat, |i: int| 0u32)
}

/// `layers` buffers of `n` zeros each.
pub open spec fn zero_buffers(layers: int, n: int) -> Seq<Seq<u32>> {
    Seq::new(layers as nat, |l: int| zeros(n))
}

/// `s` with everything from `from` on zero.
pub open spec fn zero_tail(s: Seq<u32>, from: int) -> Seq<u32> {
    Seq::new(
        s.len(),
        |i: int|
            if i < from {
                s[i]
            } else {
                0u32
            },
    )
}

impl View for KvCache {
    type V = CacheView;

    closed spec fn view(&self) -> CacheView {
        CacheView {
            ctx_size: self.ctx_size,
            n_layers: self.n_layers,
            head_dim: self.head_dim,
            compressed_dim: self.compressed_dim,
            indexer_dim: self.indexer_dim,
            raw: buffers(self.raw_swa@),
            compressed: buffers(self.compressed@),
            index: buffers(self.index_comp_kv@),
        }
    }
}

/// Every layer has a buffer with room for all positions.
pub open spec fn sized(b: Seq<Seq<u32>>, layers: usize, n: int) -> bool {
    b.len() == layers && forall|l: int| 0 <= l < b.len() ==> (#[trigger] b[l]).len() == n
}

impl CacheView {
    /// The buffers have the sizes that the dimensions ask for.
    pub open spec fn wf(self) -> bool {
        &&& sized(self.raw, self.n_layers, self.ctx_size * self.head_dim)
        &&& sized(self.compressed, self.n_layers, self.ctx_size * self.compressed_dim)
        &&& sized(self.index, self.n_layers, self.ctx_size * self.indexer_dim)
        &&& self.ctx_size * self.head_dim <= usize::MAX
        &&& self.ctx_size * self.compressed_dim <= usize::MAX
        &&& self.ctx_size * self.indexer_dim <= usize::MAX
    }

    /// The raw row of a token: the first half of it the key, the rest the value.
    pub open spec fn raw_row(self, k: Seq<u32>, v: Seq<u32>) -> Seq<u32> {
        let mid = self.head_dim as int / 2;
        k.take(mid) + v.take(self.head_dim - mid)
    }

    /// The part of a value that the indexer keeps.
    pub open spec fn index_row(self, v: Seq<u32>) -> Seq<u32> {
        v.take(
            if self.indexer_dim < v.len() {
                self.indexer_dim as int
            } else {
                v.len() as int
            },
        )
    }

    /// The cache after a token was written: its raw, its compressed and its indexer row.
    pub open spec fn with_token(
        self,
        layer: usize,
        pos: usize,
        k: Seq<u32>,
        v: Seq<u32>,
        down: Seq<u32>,
    ) -> CacheView {
        let l = layer as int;
        CacheView {
            raw: self.raw.update(
                l,
                overwritten(self.raw[l], pos * self.head_dim, self.raw_row(k, v)),
            ),
            compressed: self.compressed.update(
                l,
                overwritten(self.compressed[l], pos * self.compressed_dim, down),
            ),
            index: self.index.update(
                l,
                overwritten(self.index[l], pos * self.indexer_dim, self.index_row(v)),
            ),
            ..self
        }
    }

    /// The cache with the positions from `pos` on cleared in one layer.
    pub open spec fn rewound(self, layer: usize, pos: usize) -> CacheView {
        let l = layer as int;
        let p = if pos < self.ctx_size {
            pos
        } else {
            self.ctx_size
        };
        CacheView {
            raw: self.raw.update(l, zero_tail(self.raw[l], p * self.head_dim)),
            compressed: self.compressed.update(
                l,
                zero_tail(self.compressed[l], p * self.compressed_dim),
            ),
            index: self.index.update(l, zero_tail(self.index[l], p * self.indexer_dim)),
            ..self
        }
    }

    /// The cache with the positions from `pos` on cleared in the first `n` layers.
    pub open spec fn rewound_layers(self, n: nat, pos: usize) -> CacheView
        decreases n,
    {
        if n == 0 {
            self
        } else {
            self.rewound_layers((n - 1) as nat, pos).rewound((n - 1) as usize, pos)
        }
    }

    /// The cache with the positions from `pos` on cleared in every layer.
    pub open spec fn rewound_all(self, pos: usize) -> CacheView {
        self.rewound_layers(self.n_layers as nat, pos)
    }

    /// The cache with nothing in it.
    pub open spec fn cleared(self) -> CacheView {
        CacheView {
            raw: zero_buffers(self.n_layers as int, self.ctx_size * self.head_dim),
            compressed: zero_buffers(self.n_layers as int, self.ctx_size * self.compressed_dim),
            index: zero_buffers(self.n_layers as int, self.ctx_size * self.indexer_dim),
            ..self
        }
    }
}

/// An empty cache with these dimensions.
pub open spec fn empty_cache(
    ctx_size: usize,
    n_layers: usize,
    head_dim: usize,
    compressed_dim: usize,
    indexer_dim: usize,
) -> CacheView {
    CacheView {
        ctx_size,
        n_layers,
        head_dim,
        compressed_dim,
        indexer_dim,
        raw: zero_buffers(n_layers as int, ctx_size * head_dim),
        compressed: zero_buffers(n_layers as int, ctx_size * compressed_dim),
        index: zero_buffers(n_layers as int, ctx_size * indexer_dim),
    }
}

// ---- Laws ----

proof fn lemma_row_in(pos: int, ctx: int, dim: int)
    requires
        0 <= pos < ctx,
        0 <= dim,
    ensures
        0 <= pos * dim,
        pos * dim + dim <= ctx * dim,
{
    assert(0 <= pos * dim && pos * dim + dim <= ctx * dim) by (nonlinear_arith)
        requires
            0 <= pos,
            pos + 1 <= ctx,
            0 <= dim,
    ;
}

proof fn lemma_pos_in(pos: int, ctx: int, dim: int)
    requires
        0 <= pos <= ctx,
        0 <= dim,
    ensures
        0 <= pos * dim <= ctx * dim,
{
    assert(0 <= pos * dim <= ctx * dim) by (nonlinear_arith)
        requires
            0 <= pos <= ctx,
            0 <= dim,
    ;
}

/// A token that was written is read back from its raw, its compressed and its indexer row, and the
/// cache keeps its shape.
pub proof fn law_extend_read(
    c: CacheView,
    layer: usize,
    pos: usize,
    k: Seq<u32>,
    v: Seq<u32>,
    down: Seq<u32>,
)
    requires
        c.wf(),
        layer < c.n_layers,
        pos < c.ctx_size,
        k.len() == c.head_dim,
        v.len() == c.head_dim,
        down.len() == c.compressed_dim,
    ensures
        c.with_token(layer, pos, k, v, down).wf(),
        c.with_token(layer, pos, k, v, down).raw[layer as int].subrange(
            pos * c.head_dim,
            pos * c.head_dim + c.head_dim,
        ) == c.raw_row(k, v),
        c.with_token(layer, pos, k, v, down).compressed[layer as int].subrange(
            pos * c.compressed_dim,
            pos * c.compressed_dim + c.compressed_dim,
        ) == down,
        c.with_token(layer, pos, k, v, down).index[layer as int].subrange(
            pos * c.indexer_dim,
            pos * c.indexer_dim + c.index_row(v).len(),
        ) == c.index_row(v),
{
    lemma_row_in(pos as int, c.ctx_size as int, c.head_dim as int);
    lemma_row_in(pos as int, c.ctx_size as int, c.compressed_dim as int);
    lemma_row_in(pos as int, c.ctx_size as int, c.indexer_dim as int);
    let after = c.with_token(layer, pos, k, v, down);
    assert(c.raw[layer as int].len() == c.ctx_size * c.head_dim);
    assert(c.compressed[layer as int].len() == c.ctx_size * c.compressed_dim);
    assert(after.raw[layer as int].subrange(
        pos * c.head_dim,
        pos * c.head_dim + c.head_dim,
    ) =~= c.raw_row(k, v));
    assert(after.compressed[layer as int].subrange(
        pos * c.compressed_dim,
        pos * c.compressed_dim + c.compressed_dim,
    ) =~= down);
    assert(c.index[layer as int].len() == c.ctx_size * c.indexer_dim);
    assert(after.index[layer as int].subrange(
        pos * c.indexer_dim,
        pos * c.indexer_dim + c.index_row(v).len(),
    ) =~= c.index_row(v));
}

/// Clearing from a position on forgets a write at or after it.
pub proof fn law_rewind_undoes_extend(
    c: CacheView,
    layer: usize,
    pos: usize,
    k: Seq<u32>,
    v: Seq<u32>,
    down: Seq<u32>,
    from: usize,
)
    requires
        c.wf(),
        layer < c.n_layers,
        from <= pos < c.ctx_size,
        k.len() == c.head_dim,
        v.len() == c.head_dim,
        down.len() == c.compressed_dim,
    ensures
        c.with_token(layer, pos, k, v, down).rewound(layer, from) == c.rewound(layer, from),
{
    let l = layer as int;
    let a = c.with_token(layer, pos, k, v, down).rewound(layer, from);
    let b = c.rewound(layer, from);
    assert(from * c.head_dim <= pos * c.head_dim) by (nonlinear_arith)
        requires
            from <= pos,
    ;
    assert(from * c.compressed_dim <= pos * c.compressed_dim) by (nonlinear_arith)
        requires
            from <= pos,
    ;
    assert(from * c.indexer_dim <= pos * c.indexer_dim) by (nonlinear_arith)
        requires
            from <= pos,
    ;
    assert(a.raw[l] =~= b.raw[l]);
    assert(a.compressed[l] =~= b.compressed[l]);
    assert(a.index[l] =~= b.index[l]);
    assert(a.raw =~= b.raw);
    assert(a.compressed =~= b.compressed);
    assert(a.index =~= b.index);
}

/// Clearing twice is clearing once.
pub proof fn law_rewind_idempotent(c: CacheView, layer: usize, pos: usize)
    requires
        c.wf(),
        layer < c.n_layers,
    ensures
        c.rewound(layer, pos).wf(),
        c.rewound(layer, pos).rewound(layer, pos) == c.rewound(layer, pos),
{
    let l = layer as int;
    let a = c.rewound(layer, pos);
    let b = a.rewound(layer, pos);
    assert(a.raw[l] =~= b.raw[l]);
    assert(a.compressed[l] =~= b.compressed[l]);
    assert(a.index[l] =~= b.index[l]);
    assert(a.raw =~= b.raw);
    assert(a.compressed =~= b.compressed);
    assert(a.index =~= b.index);
}

proof fn lemma_rewound_layers(c: CacheView, n: nat, pos: usize)
    requires
        c.wf(),
        n <= c.n_layers,
    ensures
        c.rewound_layers(n, pos).wf(),
        c.rewound_layers(n, pos).n_layers == c.n_layers,
        c.rewound_layers(n, pos).ctx_size == c.ctx_size,
        c.rewound_layers(n, pos).head_dim == c.head_dim,
        c.rewound_layers(n, pos).compressed_dim == c.compressed_dim,
        c.rewound_layers(n, pos).indexer_dim == c.indexer_dim,
    decreases n,
{
    if n > 0 {
        lemma_rewound_layers(c, (n - 1) as nat, pos);
    }
}

/// Clearing in every layer keeps the shape of the cache.
pub proof fn law_rewind_all_shape(c: CacheView, pos: usize)
    requires
        c.wf(),
    ensures
        c.rewound_all(pos).wf(),
        c.rewound_all(pos).n_layers == c.n_layers,
        c.rewound_all(pos).ctx_size == c.ctx_size,
{
    lemma_rewound_layers(c, c.n_layers as nat, pos);
}

/// Of a token that was written the first half of the key and the first half of the value are kept,
/// the key's half first, and the indexer keeps the start of the value.
pub proof fn law_key_and_value_kept(
    c: CacheView,
    layer: usize,
    pos: usize,
    k: Seq<u32>,
    v: Seq<u32>,
    down: Seq<u32>,
    i: int,
)
    requires
        c.wf(),
        layer < c.n_layers,
        pos < c.ctx_size,
        k.len() == c.head_dim,
        v.len() == c.head_dim,
        down.len() == c.compressed_dim,
        0 <= i,
    ensures
        ({
            let after = c.with_token(layer, pos, k, v, down);
            let l = layer as int;
            let half = c.head_dim as int / 2;
            &&& i < half ==> after.raw[l][pos * c.head_dim + i] == k[i]
            &&& half <= i < c.head_dim ==> after.raw[l][pos * c.head_dim + i] == v[i - half]
            &&& i < c.compressed_dim ==> after.compressed[l][pos * c.compressed_dim + i] == down[i]
            &&& i < c.indexer_dim && i < c.head_dim ==> after.index[l][pos * c.indexer_dim + i]
                == v[i]
        }),
{
    lemma_row_in(pos as int, c.ctx_size as int, c.head_dim as int);
    lemma_row_in(pos as int, c.ctx_size as int, c.compressed_dim as int);
    lemma_row_in(pos as int, c.ctx_size as int, c.indexer_dim as int);
    let l = layer as int;
    assert(c.raw[l].len() == c.ctx_size * c.head_dim);
    assert(c.compressed[l].len() == c.ctx_size * c.compressed_dim);
    assert(c.index[l].len() == c.ctx_size * c.indexer_dim);
    let after = c.with_token(layer, pos, k, v, down);
    let half = c.head_dim as int / 2;
    if i < c.head_dim {
        assert(after.raw[l][pos * c.head_dim + i] == c.raw_row(k, v)[i]);
    }
}

/// Writing a token changes nothing of other layers and of other positions.
pub proof fn law_extend_frame(
    c: CacheView,
    layer: usize,
    pos: usize,
    k: Seq<u32>,
    v: Seq<u32>,
    down: Seq<u32>,
    l: int,
    i: int,
)
    requires
        c.wf(),
        layer < c.n_layers,
        pos < c.ctx_size,
        k.len() == c.head_dim,
        v.len() == c.head_dim,
        down.len() == c.compressed_dim,
        0 <= l < c.n_layers,
        0 <= i,
    ensures
        ({
            let after = c.with_token(layer, pos, k, v, down);
            let apart = |dim: usize| l != layer || i < pos * dim || pos * dim + dim <= i;
            &&& i < c.raw[l].len() && apart(c.head_dim) ==> after.raw[l][i] == c.raw[l][i]
            &&& i < c.compressed[l].len() && apart(c.compressed_dim) ==> after.compressed[l][i]
                == c.compressed[l][i]
            &&& i < c.index[l].len() && apart(c.indexer_dim) ==> after.index[l][i] == c.index[l][i]
        }),
{
    lemma_row_in(pos as int, c.ctx_size as int, c.head_dim as int);
    lemma_row_in(pos as int, c.ctx_size as int, c.compressed_dim as int);
    lemma_row_in(pos as int, c.ctx_size as int, c.indexer_dim as int);
}

proof fn lemma_rewound_elements(c: CacheView, n: nat, pos: usize)
    requires
        c.wf(),
        n <= c.n_layers,
        pos <= c.ctx_size,
    ensures
        ({
            let r = c.rewound_layers(n, pos);
            &&& r.wf()
            &&& r.n_layers == c.n_layers && r.ctx_size == c.ctx_size && r.head_dim == c.head_dim
                && r.compressed_dim == c.compressed_dim && r.indexer_dim == c.indexer_dim
            &&& forall|l: int|
                0 <= l < c.n_layers ==> #[trigger] r.raw[l] == if l < n {
                    zero_tail(c.raw[l], pos * c.head_dim)
                } else {
                    c.raw[l]
                }
            &&& forall|l: int|
                0 <= l < c.n_layers ==> #[trigger] r.compressed[l] == if l < n {
                    zero_tail(c.compressed[l], pos * c.compressed_dim)
                } else {
                    c.compressed[l]
                }
            &&& forall|l: int|
                0 <= l < c.n_layers ==> #[trigger] r.index[l] == if l < n {
                    zero_tail(c.index[l], pos * c.indexer_dim)
                } else {
                    c.index[l]
                }
        }),
    decreases n,
{
    if n > 0 {
        lemma_rewound_elements(c, (n - 1) as nat, pos);
    }
}

/// Clearing from a position on keeps, in every layer, all that stands before the position, and
/// leaves zeros from there on.
pub proof fn law_rewind_keeps_earlier(c: CacheView, pos: usize, l: int, i: int)
    requires
        c.wf(),
        pos <= c.ctx_size,
        0 <= l < c.n_layers,
        0 <= i,
    ensures
        ({
            let r = c.rewound_all(pos);
            &&& r.wf()
            &&& i < pos * c.head_dim ==> r.raw[l][i] == c.raw[l][i]
            &&& pos * c.head_dim <= i < c.ctx_size * c.head_dim ==> r.raw[l][i] == 0
            &&& i < pos * c.compressed_dim ==> r.compressed[l][i] == c.compressed[l][i]
            &&& pos * c.compressed_dim <= i < c.ctx_size * c.compressed_dim ==> r.compressed[l][i]
                == 0
            &&& i < pos * c.indexer_dim ==> r.index[l][i] == c.index[l][i]
            &&& pos * c.indexer_dim <= i < c.ctx_size * c.indexer_dim ==> r.index[l][i] == 0
        }),
{
    lemma_rewound_elements(c, c.n_layers as nat, pos);
    lemma_pos_in(pos as int, c.ctx_size as int, c.head_dim as int);
    lemma_pos_in(pos as int, c.ctx_size as int, c.compressed_dim as int);
    lemma_pos_in(pos as int, c.ctx_size as int, c.indexer_dim as int);
    let r = c.rewound_all(pos);
    assert(r.raw[l] == zero_tail(c.raw[l], pos * c.head_dim));
    assert(r.compressed[l] == zero_tail(c.compressed[l], pos * c.compressed_dim));
    assert(r.index[l] == zero_tail(c.index[l], pos * c.indexer_dim));
    assert(c.raw[l].len() == c.ctx_size * c.head_dim);
    assert(c.compressed[l].len() == c.ctx_size * c.compressed_dim);
    assert(c.index[l].len() == c.ctx_size * c.indexer_dim);
}

/// Going back to the start clears the cache, and a cleared cache is one that was never written to.
pub proof fn law_rewind_to_start_clears(c: CacheView)
    requires
        c.wf(),
    ensures
        c.rewound_all(0) == c.cleared(),
        c.cleared() == empty_cache(
            c.ctx_size,
            c.n_layers,
            c.head_dim,
            c.compressed_dim,
            c.indexer_dim,
        ),
        forall|l: int, i: int|
            0 <= l < c.n_layers && 0 <= i < c.ctx_size * c.head_dim ==> #[trigger] c.cleared().raw[l][i]
                == 0,
{
    lemma_rewound_elements(c, c.n_layers as nat, 0);
    let r = c.rewound_all(0);
    let e = c.cleared();
    assert(0 * c.head_dim == 0 && 0 * c.compressed_dim == 0 && 0 * c.indexer_dim == 0)
        by (nonlinear_arith);
    assert forall|l: int| 0 <= l < c.n_layers implies r.raw[l] == #[trigger] e.raw[l] by {
        assert(c.raw[l].len() == c.ctx_size * c.head_dim);
        assert(r.raw[l] =~= e.raw[l]);
    }
    assert forall|l: int| 0 <= l < c.n_layers implies r.compressed[l]
        == #[trigger] e.compressed[l] by {
        assert(c.compressed[l].len() == c.ctx_size * c.compressed_dim);
        assert(r.compressed[l] =~= e.compressed[l]);
    }
    assert forall|l: int| 0 <= l < c.n_layers implies r.index[l] == #[trigger] e.index[l] by {
        assert(c.index[l].len() == c.ctx_size * c.indexer_dim);
        assert(r.index[l] =~= e.index[l]);
    }
    assert(r.raw =~= e.raw);
    assert(r.compressed =~= e.compressed);
    assert(r.index =~= e.index);
}

// ---- Operations ----

fn zero_vec(n: usize) -> (r: Vec<u32>)
    ensures
        r@ == zeros(n as int),
{
    let mut out: Vec<u32> = Vec::new();
    let mut i: usize = 0;
    while i < n
        invariant
            i <= n,
            out@ == zeros(i as int),
        decreases n - i,
    {
        out.push(0);
        i += 1;
        assert(out@ =~= zeros(i as int));
    }
    out
}

fn zero_layers(layers: usize, n: usize) -> (r: Vec<Vec<u32>>)
    ensures
        buffers(r@) == zero_buffers(layers as int, n as int),
{
    let mut out: Vec<Vec<u32>> = Vec::new();
    let mut i: usize = 0;
    while i < layers
        invariant
            i <= layers,
            buffers(out@) == zero_buffers(i as int, n as int),
        decreases layers - i,
    {
        let ghost before = buffers(out@);
        out.push(zero_vec(n));
        i += 1;
        assert(buffers(out@) =~= before.push(zeros(n as int)));
        assert(buffers(out@) =~= zero_buffers(i as int, n as int));
    }
    out
}

fn put_row(b: &mut Vec<Vec<u32>>, layer: usize, base: usize, row: &[u32])
    requires
        layer < old(b)@.len(),
        base + row@.len() <= old(b)@[layer as int]@.len(),
    ensures
        buffers(final(b)@) == buffers(old(b)@).update(
            layer as int,
            overwritten(buffers(old(b)@)[layer as int], base as int, row@),
        ),
{
    let ghost before = b@;
    let ghost buf = b@[layer as int]@;
    let mut i: usize = 0;
    while i < row.len()
        invariant
            i <= row@.len(),
            layer < b@.len(),
            b@.len() == before.len(),
            before[layer as int]@ == buf,
            base + row@.len() <= buf.len(),
            b@[layer as int]@.len() == buf.len(),
            forall|l: int| 0 <= l < b@.len() && l != layer ==> #[trigger] b@[l] == before[l],
            forall|j: int|
                0 <= j < buf.len() ==> #[trigger] b@[layer as int]@[j] == if base <= j < base + i {
                    row@[j - base]
                } else {
                    buf[j]
                },
        decreases row@.len() - i,
    {
        assert(b@[layer as int]@.len() == b@[layer as int].len());
        let x: u32 = row[i];
        b[layer].set(base + i, x);
        i += 1;
    }
    assert(b@[layer as int]@ =~= overwritten(buf, base as int, row@));
    assert(buffers(b@) =~= buffers(before).update(
        layer as int,
        overwritten(buf, base as int, row@),
    ));
}

fn clear_tail(b: &mut Vec<Vec<u32>>, layer: usize, from: usize)
    requires
        layer < old(b)@.len(),
    ensures
        buffers(final(b)@) == buffers(old(b)@).update(
            layer as int,
            zero_tail(buffers(old(b)@)[layer as int], from as int),
        ),
{
    let ghost before = b@;
    let ghost buf = b@[layer as int]@;
    let mut i: usize = from;
    while i < b[layer].len()
        invariant
            from <= i,
            layer < b@.len(),
            b@.len() == before.len(),
            before[layer as int]@ == buf,
            b@[layer as int]@.len() == buf.len(),
            forall|l: int| 0 <= l < b@.len() && l != layer ==> #[trigger] b@[l] == before[l],
            forall|j: int|
                0 <= j < buf.len() ==> #[trigger] b@[layer as int]@[j] == if from <= j < i {
                    0u32
                } else {
                    buf[j]
                },
        decreases b@[layer as int]@.len() - i,
    {
        b[layer].set(i, 0);
        i += 1;
    }
    assert(b@[layer as int]@ =~= zero_tail(buf, from as int));
    assert(buffers(b@) =~= buffers(before).update(layer as int, zero_tail(buf, from as int)));
}

fn copy_layers(b: &Vec<Vec<u32>>) -> (r: Vec<Vec<u32>>)
    ensures
        buffers(r@) == buffers(b@),
{
    let mut out: Vec<Vec<u32>> = Vec::new();
    let mut i: usize = 0;
    while i < b.len()
        invariant
            i <= b@.len(),
            out@.len() == i,
            forall|j: int| 0 <= j < i ==> (#[trigger] out@[j])@ == b@[j]@,
        decreases b@.len() - i,
    {
        let copy: Vec<u32> = b[i].clone();
        assert(copy@ =~= b@[i as int]@);
        out.push(copy);
        i += 1;
    }
    assert(buffers(out@) =~= buffers(b@));
    out
}

/// The error for a bad position, layer or length.
pub open spec fn bad_extend(e: Ds4Error, what: Seq<char>, got: nat, than: Seq<char>, max: nat) -> bool {
    e.is(Ds4ErrorKind::InvalidArgument, what + dec(got) + than + dec(max))
}

fn mismatch(what: &str, got: usize, than: &str, max: usize) -> (e: Ds4Error)
    ensures
        bad_extend(e, what@, got as nat, than@, max as nat),
{
    let mut m: String = String::from_str(what);
    push_dec(&mut m, got as u64);
    m.append(than);
    push_dec(&mut m, max as u64);
    Ds4Error::new(Ds4ErrorKind::InvalidArgument, m)
}

impl KvCache {
    /// An empty cache with rows of the default widths.
    pub fn new(ctx_size: usize, n_layers: usize) -> (r: Ds4Result<Self>)
        requires
            ctx_size * DEFAULT_HEAD_DIM <= usize::MAX,
        ensures
            match r {
                Ok(c) => {
                    &&& ctx_size > 0 && n_layers > 0
                    &&& c@ == empty_cache(
                        ctx_size,
                        n_layers,
                        DEFAULT_HEAD_DIM,
                        DEFAULT_COMPRESSED_DIM,
                        DEFAULT_INDEXER_DIM,
                    )
                    &&& c@.wf()
                },
                Err(e) => (ctx_size == 0 || n_layers == 0) && bad_extend(
                    e,
                    "KvCache::with_dims: ctx_size="@,
                    ctx_size as nat,
                    " n_layers="@,
                    n_layers as nat,
                ),
            },
    {
        Self::with_dims(
            ctx_size,
            n_layers,
            DEFAULT_HEAD_DIM,
            DEFAULT_COMPRESSED_DIM,
            DEFAULT_INDEXER_DIM,
        )
    }

    /// An empty cache.
    pub fn with_dims(
        ctx_size: usize,
        n_layers: usize,
        head_dim: usize,
        compressed_dim: usize,
        indexer_dim: usize,
    ) -> (r: Ds4Result<Self>)
        requires
            ctx_size * head_dim <= usize::MAX,
            ctx_size * compressed_dim <= usize::MAX,
            ctx_size * indexer_dim <= usize::MAX,
        ensures
            match r {
                Ok(c) => {
                    &&& ctx_size > 0 && n_layers > 0
                    &&& c@ == empty_cache(ctx_size, n_layers, head_dim, compressed_dim, indexer_dim)
                    &&& c@.wf()
                },
                Err(e) => (ctx_size == 0 || n_layers == 0) && bad_extend(
                    e,
                    "KvCache::with_dims: ctx_size="@,
                    ctx_size as nat,
                    " n_layers="@,
                    n_layers as nat,
                ),
            },
    {
        if ctx_size == 0 || n_layers == 0 {
            return Err(
                mismatch("KvCache::with_dims: ctx_size=", ctx_size, " n_layers=", n_layers),
            );
        }
        let raw_swa: Vec<Vec<u32>> = zero_layers(n_layers, ctx_size * head_dim);
        let compressed: Vec<Vec<u32>> = zero_layers(n_layers, ctx_size * compressed_dim);
        let index_comp_kv: Vec<Vec<u32>> = zero_layers(n_layers, ctx_size * indexer_dim);
        Ok(
            KvCache {
                ctx_size,
                n_layers,
                head_dim,
                compressed_dim,
                indexer_dim,
                raw_swa,
                compressed,
                index_comp_kv,
            },
        )
    }

    /// Number of positions.
    pub fn ctx_size(&self) -> (r: usize)
        ensures
            r == self@.ctx_size,
    {
        self.ctx_size
    }

    /// Number of layers.
    pub fn n_layers(&self) -> (r: usize)
        ensures
            r == self@.n_layers,
    {
        self.n_layers
    }

    /// Width of a raw row.
    pub fn head_dim(&self) -> (r: usize)
        ensures
            r == self@.head_dim,
    {
        self.head_dim
    }

    /// Width of a compressed row.
    pub fn compressed_dim(&self) -> (r: usize)
        ensures
            r == self@.compressed_dim,
    {
        self.compressed_dim
    }

    /// Width of an indexer row.
    pub fn indexer_dim(&self) -> (r: usize)
        ensures
            r == self@.indexer_dim,
    {
        self.indexer_dim
    }

    /// The elements of a key of which element `c` of the compressed row is the mean: `window`
    /// elements from `c * window` on, as far as the key reaches. The mean divides by the window.
    pub fn compression_window(&self, c: usize) -> (r: (usize, usize, usize))
        requires
            c < self@.compressed_dim,
        ensures
            r.2 == if self@.head_dim >= self@.compressed_dim {
                self@.head_dim as int / self@.compressed_dim as int
            } else {
                1
            },
            r.0 == if c * r.2 < self@.head_dim {
                c * r.2
            } else {
                self@.head_dim as int
            },
            r.1 == if c * r.2 + r.2 < self@.head_dim {
                c * r.2 + r.2
            } else {
                self@.head_dim as int
            },
    {
        if self.head_dim < self.compressed_dim {
            let start: usize = if c < self.head_dim {
                c
            } else {
                self.head_dim
            };
            let end: usize = if c < self.head_dim && c + 1 < self.head_dim {
                c + 1
            } else {
                self.head_dim
            };
            return (start, end, 1);
        }
        let window: usize = self.head_dim / self.compressed_dim;
        proof {
            let h = self.head_dim as int;
            let n = self.compressed_dim as int;
            let w = window as int;
            assert(n * w <= h && w >= 1) by (nonlinear_arith)
                requires
                    w == h / n,
                    n > 0,
                    h >= n,
            ;
            assert(0 <= c * w && c * w + w <= n * w) by (nonlinear_arith)
                requires
                    0 <= c,
                    c + 1 <= n,
                    w >= 1,
            ;
        }
        let start: usize = c * window;
        (start, start + window, window)
    }

    /// Writes the rows of a token at a position. `down` is the compressed row of the key.
    pub fn extend(&mut self, layer: usize, pos: usize, k: &[u32], v: &[u32], down: &[u32]) -> (r:
        Ds4Result<()>)
        requires
            old(self)@.wf(),
            down@.len() == old(self)@.compressed_dim,
        ensures
            final(self)@.wf(),
            match r {
                Ok(()) => {
                    &&& layer < old(self)@.n_layers
                    &&& pos < old(self)@.ctx_size
                    &&& k@.len() == old(self)@.head_dim
                    &&& v@.len() == old(self)@.head_dim
                    &&& final(self)@ == old(self)@.with_token(layer, pos, k@, v@, down@)
                },
                Err(e) => {
                    &&& final(self)@ == old(self)@
                    &&& if layer >= old(self)@.n_layers {
                        bad_extend(
                            e,
                            "KvCache::extend layer "@,
                            layer as nat,
                            " out of range "@,
                            old(self)@.n_layers as nat,
                        )
                    } else if pos >= old(self)@.ctx_size {
                        bad_extend(
                            e,
                            "KvCache::extend pos "@,
                            pos as nat,
                            " out of range "@,
                            old(self)@.ctx_size as nat,
                        )
                    } else if k@.len() != old(self)@.head_dim {
                        bad_extend(
                            e,
                            "KvCache::extend k length "@,
                            k@.len(),
                            " does not match "@,
                            old(self)@.head_dim as nat,
                        )
                    } else {
                        v@.len() != old(self)@.head_dim && bad_extend(
                            e,
                            "KvCache::extend v length "@,
                            v@.len(),
                            " does not match "@,
                            old(self)@.head_dim as nat,
                        )
                    }
                },
            },
    {
        if layer >= self.n_layers {
            return Err(mismatch("KvCache::extend layer ", layer, " out of range ", self.n_layers));
        }
        if pos >= self.ctx_size {
            return Err(mismatch("KvCache::extend pos ", pos, " out of range ", self.ctx_size));
        }
        if k.len() != self.head_dim {
            return Err(
                mismatch("KvCache::extend k length ", k.len(), " does not match ", self.head_dim),
            );
        }
        if v.len() != self.head_dim {
            return Err(
                mismatch("KvCache::extend v length ", v.len(), " does not match ", self.head_dim),
            );
        }
        let ghost before = self@;
        proof {
            lemma_row_in(pos as int, self.ctx_size as int, self.head_dim as int);
            lemma_row_in(pos as int, self.ctx_size as int, self.compressed_dim as int);
            lemma_row_in(pos as int, self.ctx_size as int, self.indexer_dim as int);
            assert(before.raw[layer as int] == self.raw_swa@[layer as int]@);
            assert(before.compressed[layer as int] == self.compressed@[layer as int]@);
            assert(before.index[layer as int] == self.index_comp_kv@[layer as int]@);
        }
        let mid: usize = self.head_dim / 2;
        let mut row: Vec<u32> = Vec::new();
        let mut i: usize = 0;
        while i < self.head_dim
            invariant
                i <= self.head_dim,
                mid == self.head_dim / 2,
                k@.len() == self.head_dim,
                v@.len() == self.head_dim,
                row@.len() == i,
                forall|j: int|
                    0 <= j < i ==> #[trigger] row@[j] == if j < mid {
                        k@[j]
                    } else {
                        v@[j - mid]
                    },
            decreases self.head_dim - i,
        {
            if i < mid {
                row.push(k[i]);
            } else {
                row.push(v[i - mid]);
            }
            i += 1;
        }
        assert(row@ =~= before.raw_row(k@, v@));
        let raw_offset: usize = pos * self.head_dim;
        put_row(&mut self.raw_swa, layer, raw_offset, row.as_slice());
        let comp_offset: usize = pos * self.compressed_dim;
        put_row(&mut self.compressed, layer, comp_offset, down);
        let copy_len: usize = if self.indexer_dim < v.len() {
            self.indexer_dim
        } else {
            v.len()
        };
        let part: Vec<u32> = crate::slices::copy_words(v, 0, copy_len);
        assert(part@ =~= before.index_row(v@));
        let idx_offset: usize = pos * self.indexer_dim;
        put_row(&mut self.index_comp_kv, layer, idx_offset, part.as_slice());
        Ok(())
    }

    /// Clears every layer.
    pub fn reset(&mut self)
        requires
            old(self)@.wf(),
        ensures
            final(self)@ == old(self)@.cleared(),
            final(self)@.wf(),
    {
        proof {
            lemma_pos_in(0, self.ctx_size as int, self.head_dim as int);
        }
        self.raw_swa = zero_layers(self.n_layers, self.ctx_size * self.head_dim);
        self.compressed = zero_layers(self.n_layers, self.ctx_size * self.compressed_dim);
        self.index_comp_kv = zero_layers(self.n_layers, self.ctx_size * self.indexer_dim);
    }

    /// Clears the positions from `pos` on in one layer. A position past the end clears nothing.
    pub fn rewind(&mut self, layer: usize, pos: usize) -> (r: Ds4Result<()>)
        requires
            old(self)@.wf(),
        ensures
            final(self)@.wf(),
            match r {
                Ok(()) => layer < old(self)@.n_layers && final(self)@ == old(self)@.rewound(
                    layer,
                    pos,
                ),
                Err(e) => {
                    &&& layer >= old(self)@.n_layers
                    &&& final(self)@ == old(self)@
                    &&& bad_extend(
                        e,
                        "KvCache::rewind layer "@,
                        layer as nat,
                        " out of range "@,
                        old(self)@.n_layers as nat,
                    )
                },
            },
    {
        if layer >= self.n_layers {
            return Err(mismatch("KvCache::rewind layer ", layer, " out of range ", self.n_layers));
        }
        let p: usize = if pos < self.ctx_size {
            pos
        } else {
            self.ctx_size
        };
        proof {
            lemma_pos_in(p as int, self.ctx_size as int, self.head_dim as int);
            lemma_pos_in(p as int, self.ctx_size as int, self.compressed_dim as int);
            lemma_pos_in(p as int, self.ctx_size as int, self.indexer_dim as int);
            law_rewind_idempotent(self@, layer, pos);
        }
        clear_tail(&mut self.raw_swa, layer, p * self.head_dim);
        clear_tail(&mut self.compressed, layer, p * self.compressed_dim);
        clear_tail(&mut self.index_comp_kv, layer, p * self.indexer_dim);
        Ok(())
    }

    /// Clears the positions from `pos` on in every layer.
    pub fn rewind_all(&mut self, pos: usize)
        requires
            old(self)@.wf(),
        ensures
            final(self)@.wf(),
            final(self)@ == old(self)@.rewound_all(pos),
    {
        let ghost before = self@;
        let mut layer: usize = 0;
        while layer < self.n_layers
            invariant
                before.wf(),
                self@.wf(),
                self.n_layers == before.n_layers,
                layer <= self.n_layers,
                self@ == before.rewound_layers(layer as nat, pos),
            decreases self.n_layers - layer,
        {
            proof {
                lemma_rewound_layers(before, layer as nat, pos);
                lemma_rewound_layers(before, layer as nat + 1, pos);
            }
            let _ = self.rewind(layer, pos);
            layer += 1;
        }
    }

    /// The raw rows of a layer; none for a layer that does not exist.
    pub fn raw_layer(&self, layer: usize) -> (r: &[u32])
        requires
            self@.wf(),
        ensures
            r@ == if layer < self@.n_layers {
                self@.raw[layer as int]
            } else {
                Seq::empty()
            },
    {
        layer_of(&self.raw_swa, layer)
    }

    /// The compressed rows of a layer; none for a layer that does not exist.
    pub fn compressed_layer(&self, layer: usize) -> (r: &[u32])
        requires
            self@.wf(),
        ensures
            r@ == if layer < self@.n_layers {
                self@.compressed[layer as int]
            } else {
                Seq::empty()
            },
    {
        layer_of(&self.compressed, layer)
    }

    /// The indexer rows of a layer; none for a layer that does not exist.
    pub fn index_comp_layer(&self, layer: usize) -> (r: &[u32])
        requires
            self@.wf(),
        ensures
            r@ == if layer < self@.n_layers {
                self@.index[layer as int]
            } else {
                Seq::empty()
            },
    {
        layer_of(&self.index_comp_kv, layer)
    }
}

fn layer_of(b: &Vec<Vec<u32>>, layer: usize) -> (r: &[u32])
    ensures
        r@ == if layer < b@.len() {
            buffers(b@)[layer as int]
        } else {
            Seq::empty()
        },
{
    if layer < b.len() {
        b[layer].as_slice()
    } else {
        &[]
    }
}

impl Clone for KvCache {
    fn clone(&self) -> (r: Self)
        ensures
            r@ == self@,
    {
        KvCache {
            ctx_size: self.ctx_size,
            n_layers: self.n_layers,
            head_dim: self.head_dim,
            compressed_dim: self.compressed_dim,
            indexer_dim: self.indexer_dim,
            raw_swa: copy_layers(&self.raw_swa),
            compressed: copy_layers(&self.compressed),
            index_comp_kv: copy_layers(&self.index_comp_kv),
        }
    }
}

} // verus!
