//! Paged model: one page table for each layer.

use vstd::prelude::*;

use super::page_table::{PageTable, TableView, PAGE_TOKENS};
use super::paged_attention::{
    cache_bytes, is_head_input, live_tokens, page_cache_bytes, paged_attention_inputs, wide_enough,
    HeadInput,
};
use crate::gguf::{infer_layer_count, layers_shown, GgufFile};
use crate::types::{Ds4EngineOptions, Ds4QuantKind, Ds4Result};

verus! {

/// Elements of the keys of one token, over all heads, where nothing else is known.
pub const DEFAULT_HEAD_ELEMENTS: usize = 4096;

/// Layers of a model, where nothing else is known.
pub const DEFAULT_LAYERS: usize = 32;

/// Handle of the paged backend.
#[derive(Debug, Clone, Copy, PartialEq, Eq, Structural)]
pub struct PagedBackend {
    /// `true` if an external paged kernel is in use.
    pub uses_vendored_kernel: bool,
}

/// A paged model.
#[derive(Debug)]
pub struct PagedModel {
    pub page_tables: Vec<PageTable>,
    pub head_elements: usize,
}

/// The empty table of a layer.
pub open spec fn fresh_table(layer: usize, head_elements: usize) -> TableView {
    TableView {
        pages: Seq::empty(),
        free_list: Seq::empty(),
        seq_len: 0,
        head_elements,
        layer,
        shares: Map::empty(),
    }
}

/// The model has an empty table for each layer.
pub open spec fn is_fresh(m: PagedModel, n_layers: usize, head_elements: usize) -> bool {
    &&& m.head_elements == head_elements
    &&& m.page_tables@.len() == n_layers
    &&& forall|i: int|
        0 <= i < n_layers ==> (#[trigger] m.page_tables@[i])@ == fresh_table(
            i as usize,
            head_elements,
        )
}

/// The memory that a context takes.
pub open spec fn paged_memory(ctx_size: usize) -> nat {
    if ctx_size == 0 {
        0
    } else {
        (ctx_size as nat / 16 + 1) * 16 * 4096 * 4 * 2 * 32 + cache_bytes(ctx_size as nat, 32, 128)
    }
}

/// A context takes no less memory than a shorter one, and no less than its own keys and values.
pub proof fn law_paged_memory_grows(a: usize, b: usize)
    requires
        a <= b,
    ensures
        paged_memory(a) <= paged_memory(b),
        paged_memory(a) >= a * 2 * 4096 * 4 * 32,
{
}

/// The number of layers of a model file.
pub open spec fn paged_layers(gguf: GgufFile) -> usize {
    let n = match gguf.metadata.layer_count {
        Some(v) => v as usize,
        None => layers_shown(gguf.tensors@) as usize,
    };
    if n > 0 {
        n
    } else {
        1
    }
}

/// A count of the metadata: at least 1, and the default where it is not given.
pub open spec fn count_or(v: Option<u32>, default: usize) -> usize {
    match v {
        Some(n) => if n > 0 {
            n as usize
        } else {
            1
        },
        None => default,
    }
}

fn count_of(v: Option<u32>, default: usize) -> (r: usize)
    ensures
        r == count_or(v, default),
{
    match v {
        Some(n) => if n > 0 {
            n as usize
        } else {
            1
        },
        None => default,
    }
}

impl PagedBackend {
    /// A handle without an external kernel.
    pub fn new() -> (b: Self)
        ensures
            !b.uses_vendored_kernel,
    {
        PagedBackend { uses_vendored_kernel: false }
    }

    /// The name of the backend.
    pub fn name(&self) -> (r: &'static str)
        ensures
            r@ == "paged"@,
    {
        "paged"
    }

    /// How the cache counts as quantised.
    pub fn quant_kind(&self) -> (k: Ds4QuantKind)
        ensures
            k == Ds4QuantKind::Q8_0,
    {
        Ds4QuantKind::Q8_0
    }

    /// A model of the default size. The options do not change it.
    pub fn load_model(&self, opts: &Ds4EngineOptions) -> (r: Ds4Result<PagedModel>)
        ensures
            r matches Ok(m) && is_fresh(m, DEFAULT_LAYERS, DEFAULT_HEAD_ELEMENTS),
    {
        Ok(PagedModel::with_layers(DEFAULT_LAYERS, DEFAULT_HEAD_ELEMENTS))
    }

    /// A model of the size that a model file gives.
    pub fn load_model_from_gguf(&self, gguf: &GgufFile) -> (r: Ds4Result<PagedModel>)
        requires
            layers_shown(gguf.tensors@) <= usize::MAX,
            count_or(gguf.metadata.head_count, 32) * count_or(gguf.metadata.head_dim, 128)
                <= usize::MAX,
        ensures
            r matches Ok(m) && is_fresh(
                m,
                paged_layers(*gguf),
                (count_or(gguf.metadata.head_count, 32) * count_or(
                    gguf.metadata.head_dim,
                    128,
                )) as usize,
            ),
    {
        let counted: usize = match gguf.metadata.layer_count {
            Some(v) => v as usize,
            None => infer_layer_count(&gguf.tensors),
        };
        let n_layers: usize = if counted > 0 {
            counted
        } else {
            1
        };
        let n_heads: usize = count_of(gguf.metadata.head_count, 32);
        let head_dim: usize = count_of(gguf.metadata.head_dim, 128);
        Ok(PagedModel::with_layers(n_layers, n_heads * head_dim))
    }

    /// The memory that a context takes.
    pub fn memory_estimate(ctx_size: usize, prefill_chunk: usize) -> (n: u64)
        requires
            paged_memory(ctx_size) <= usize::MAX,
        ensures
            n == paged_memory(ctx_size),
    {
        if ctx_size == 0 {
            return 0;
        }
        let n_pages: usize = ctx_size / PAGE_TOKENS + 1;
        let per_layer: usize = page_cache_bytes(ctx_size, 32, 128);
        (n_pages * PAGE_TOKENS * DEFAULT_HEAD_ELEMENTS * 4 * 2 * 32) as u64 + per_layer as u64
    }
}

impl PagedModel {
    /// A model with an empty page table for each layer.
    pub fn with_layers(n_layers: usize, head_elements: usize) -> (m: Self)
        ensures
            is_fresh(m, n_layers, head_elements),
    {
        let mut page_tables: Vec<PageTable> = Vec::new();
        let mut layer: usize = 0;
        while layer < n_layers
            invariant
                layer <= n_layers,
                page_tables@.len() == layer,
                forall|i: int|
                    0 <= i < layer ==> (#[trigger] page_tables@[i])@ == fresh_table(
                        i as usize,
                        head_elements,
                    ),
            decreases n_layers - layer,
        {
            page_tables.push(PageTable::new(layer, head_elements));
            layer += 1;
        }
        PagedModel { page_tables, head_elements }
    }

    /// Number of layers.
    pub fn n_layers(&self) -> (n: usize)
        ensures
            n == self.page_tables@.len(),
    {
        self.page_tables.len()
    }

    /// How the cache counts as quantised.
    pub fn quant_kind(&self) -> (k: Ds4QuantKind)
        ensures
            k == Ds4QuantKind::Q8_0,
    {
        Ds4QuantKind::Q8_0
    }

    /// What attention reads of a layer's cache, for each head.
    pub fn attention_inputs(
        &self,
        q: &[u32],
        layer: usize,
        seq_len: usize,
        n_heads: usize,
        head_dim: usize,
    ) -> (r: Vec<HeadInput>)
        requires
            layer < self.page_tables@.len(),
            self.page_tables@[layer as int]@.wf(),
            self.page_tables@[layer as int]@.layer == layer,
            q@.len() == n_heads * head_dim,
            wide_enough(
                self.page_tables@[layer as int]@,
                live_tokens(self.page_tables@[layer as int]@, seq_len),
                n_heads * head_dim,
            ),
        ensures
            r@.len() == n_heads,
            forall|h: int|
                0 <= h < n_heads ==> is_head_input(
                    #[trigger] r@[h],
                    q@,
                    self.page_tables@[layer as int]@,
                    live_tokens(self.page_tables@[layer as int]@, seq_len) as int,
                    h,
                    head_dim as int,
                ),
    {
        paged_attention_inputs(q, &self.page_tables[layer], layer, seq_len, n_heads, head_dim)
    }
}

impl Clone for PagedModel {
    fn clone(&self) -> (r: Self)
        ensures
            r.head_elements == self.head_elements,
            r.page_tables@.len() == self.page_tables@.len(),
            forall|i: int|
                0 <= i < self.page_tables@.len() ==> (#[trigger] r.page_tables@[i])@
                    == self.page_tables@[i]@,
    {
        let mut page_tables: Vec<PageTable> = Vec::new();
        let mut i: usize = 0;
        while i < self.page_tables.len()
            invariant
                i <= self.page_tables@.len(),
                page_tables@.len() == i,
                forall|j: int|
                    0 <= j < i ==> (#[trigger] page_tables@[j])@ == self.page_tables@[j]@,
            decreases self.page_tables@.len() - i,
        {
            page_tables.push(self.page_tables[i].clone());
            i += 1;
        }
        PagedModel { page_tables, head_elements: self.head_elements }
    }
}

/// A context takes whole pages of 16 positions, one more than it fills: for each of 32 layers a key
/// and a value of 4096 single-precision numbers for each position, and once more the keys and
/// values of one layer of 32 heads of 128 elements.
pub proof fn law_paged_memory_per_page(ctx: usize)
    requires
        0 < ctx,
        ctx + 16 <= usize::MAX,
    ensures
        paged_memory((ctx + 16) as usize) == paged_memory(ctx) + 16 * 2 * 4 * 4096 * 33,
        ctx < 16 ==> paged_memory(ctx) == 16 * 2 * 4 * 4096 * 33,
        paged_memory(0) == 0,
{
    let n = ctx as nat / 16 + 1;
    assert((ctx + 16) as nat / 16 + 1 == n + 1);
    assert(n * 16 * 4096 * 4 * 2 * 32 == n * (16 * 4096 * 4 * 2 * 32)) by (nonlinear_arith);
    assert((n + 1) * 16 * 4096 * 4 * 2 * 32 == (n + 1) * (16 * 4096 * 4 * 2 * 32))
        by (nonlinear_arith);
    assert(n * 16 * 32 * 128 * 4 * 2 == n * (16 * 4096 * 4 * 2)) by (nonlinear_arith);
    assert((n + 1) * 16 * 32 * 128 * 4 * 2 == (n + 1) * (16 * 4096 * 4 * 2)) by (nonlinear_arith);
}

} // verus!
