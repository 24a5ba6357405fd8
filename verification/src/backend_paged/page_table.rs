//! Page tables: the key and value rows of one layer in pages of fixed size.
//!
//! Pages can be shared between sequences with a common prefix, and freed one by one. Rows hold
//! single-precision numbers by their bit patterns.

use std::collections::HashMap;
use vstd::arithmetic::div_mod::lemma_fundamental_div_mod_converse;
use vstd::prelude::*;

verus! {

broadcast use vstd::std_specs::hash::group_hash_axioms;

/// Number of tokens in a page.
pub const PAGE_TOKENS: usize = 16;

/// The keys and values of up to `PAGE_TOKENS` tokens, row by row.
#[derive(Debug)]
pub struct Page {
    pub k: Vec<u32>,
    pub v: Vec<u32>,
    pub layer: usize,
    /// Number of rows that hold a token.
    pub n_tokens: usize,
    /// Number of elements in a row.
    pub head_elements: usize,
}

/// What a page holds.
pub struct PageView {
    pub k: Seq<u32>,
    pub v: Seq<u32>,
    pub layer: usize,
    pub n_tokens: usize,
    pub head_elements: usize,
}

impl View for Page {
    type V = PageView;

    open spec fn view(&self) -> PageView {
        PageView {
            k: self.k@,
            v: self.v@,
            layer: self.layer,
            n_tokens: self.n_tokens,
            head_elements: self.head_elements,
        }
    }
}

/// `s` cut or filled up with zeros to `n` elements.
pub open spec fn resized(s: Seq<u32>, n: int) -> Seq<u32> {
    if n <= s.len() {
        s.take(n)
    } else {
        s + Seq::new((n - s.len()) as nat, |i: int| 0u32)
    }
}

/// `s` with `row` in place of the elements from `base` on.
pub open spec fn overwritten(s: Seq<u32>, base: int, row: Seq<u32>) -> Seq<u32> {
    Seq::new(
        s.len(),
        |i: int|
            if base <= i < base + row.len() {
                row[i - base]
            } else {
                s[i]
            },
    )
}

/// The rows of a page of `from` elements each, cut or filled up with zeros to `to` elements each.
pub open spec fn relaid(s: Seq<u32>, from: usize, to: usize) -> Seq<u32> {
    Seq::new(
        (PAGE_TOKENS * to) as nat,
        |i: int|
            {
                let at = i / to as int * from + i % to as int;
                if i % (to as int) < from && at < s.len() {
                    s[at]
                } else {
                    0u32
                }
            },
    )
}

impl PageView {
    /// The buffers have room for all rows, and no more rows are in use than there are.
    pub open spec fn wf(self) -> bool {
        &&& self.k.len() == PAGE_TOKENS * self.head_elements
        &&& self.v.len() == PAGE_TOKENS * self.head_elements
        &&& self.n_tokens <= PAGE_TOKENS
    }

    /// The page with room for rows of `head_elements` elements. Rows of another width are cut or
    /// filled up, each in its place.
    pub open spec fn with_capacity(self, head_elements: usize) -> PageView {
        if self.head_elements == 0 || self.head_elements == head_elements {
            PageView {
                k: resized(self.k, PAGE_TOKENS * head_elements),
                v: resized(self.v, PAGE_TOKENS * head_elements),
                head_elements,
                ..self
            }
        } else {
            PageView {
                k: relaid(self.k, self.head_elements, head_elements),
                v: relaid(self.v, self.head_elements, head_elements),
                head_elements,
                ..self
            }
        }
    }

    /// The page after a token was written to row `offset`.
    pub open spec fn with_token(self, offset: usize, k: Seq<u32>, v: Seq<u32>) -> PageView {
        PageView {
            k: overwritten(self.k, offset * self.head_elements, k),
            v: overwritten(self.v, offset * self.head_elements, v),
            n_tokens: if offset >= self.n_tokens {
                (offset + 1) as usize
            } else {
                self.n_tokens
            },
            ..self
        }
    }

    /// The key row of a token.
    pub open spec fn key_row(self, offset: int) -> Seq<u32> {
        self.k.subrange(
            offset * self.head_elements,
            offset * self.head_elements + self.head_elements,
        )
    }

    /// The value row of a token.
    pub open spec fn value_row(self, offset: int) -> Seq<u32> {
        self.v.subrange(
            offset * self.head_elements,
            offset * self.head_elements + self.head_elements,
        )
    }
}

/// The page without rows.
pub open spec fn empty_page(layer: usize) -> PageView {
    PageView { k: Seq::empty(), v: Seq::empty(), layer, n_tokens: 0, head_elements: 0 }
}

fn resize_zero(buf: &mut Vec<u32>, n: usize)
    ensures
        final(buf)@ == resized(old(buf)@, n as int),
{
    if n <= buf.len() {
        buf.truncate(n);
        assert(buf@ =~= resized(old(buf)@, n as int));
    } else {
        let ghost before = buf@;
        while buf.len() < n
            invariant
                before.len() <= buf@.len() <= n,
                buf@ == before + Seq::new((buf@.len() - before.len()) as nat, |i: int| 0u32),
            decreases n - buf@.len(),
        {
            buf.push(0);
            assert(buf@ =~= before + Seq::new((buf@.len() - before.len()) as nat, |i: int| 0u32));
        }
    }
}

proof fn lemma_place_in_row(row: int, col: int, width: int)
    requires
        0 <= row,
        0 <= col < width,
    ensures
        (row * width + col) / width == row,
        (row * width + col) % width == col,
{
    lemma_fundamental_div_mod_converse(row * width + col, width, row, col);
}

fn relay(buf: &Vec<u32>, from: usize, to: usize) -> (r: Vec<u32>)
    requires
        PAGE_TOKENS * to <= usize::MAX,
    ensures
        r@ == relaid(buf@, from, to),
{
    let mut out: Vec<u32> = Vec::new();
    let mut row: usize = 0;
    while row < PAGE_TOKENS
        invariant
            row <= PAGE_TOKENS,
            out@.len() == row * to,
            forall|i: int| 0 <= i < out@.len() ==> out@[i] == relaid(buf@, from, to)[i],
        decreases PAGE_TOKENS - row,
    {
        let start: Option<usize> = row.checked_mul(from);
        let mut col: usize = 0;
        while col < to
            invariant
                row < PAGE_TOKENS,
                col <= to,
                match start {
                    Some(n) => n == row * from,
                    None => row * from > usize::MAX,
                },
                out@.len() == row * to + col,
                forall|i: int| 0 <= i < out@.len() ==> out@[i] == relaid(buf@, from, to)[i],
            decreases to - col,
        {
            let x: u32 = match start {
                Some(n) => if col < from && n < buf.len() && col < buf.len() - n {
                    buf[n + col]
                } else {
                    0
                },
                None => 0,
            };
            proof {
                lemma_place_in_row(row as int, col as int, to as int);
                lemma_row_range(row as int, to as int);
                assert(buf@.len() == buf.len());
                assert(x == relaid(buf@, from, to)[row * to + col]);
            }
            out.push(x);
            col += 1;
        }
        proof {
            assert((row + 1) * to == row * to + to) by (nonlinear_arith);
        }
        row += 1;
    }
    assert(out@ =~= relaid(buf@, from, to));
    out
}

/// A row of a page whose width changed is the row it was, cut or filled up with zeros.
proof fn lemma_relaid_row(s: Seq<u32>, from: usize, to: usize, row: int)
    requires
        s.len() == PAGE_TOKENS * from,
        0 <= row < PAGE_TOKENS,
    ensures
        relaid(s, from, to).subrange(row * to, row * to + to) == resized(
            s.subrange(row * from, row * from + from),
            to as int,
        ),
{
    lemma_row_range(row, from as int);
    lemma_row_range(row, to as int);
    let a = relaid(s, from, to).subrange(row * to, row * to + to);
    let b = resized(s.subrange(row * from, row * from + from), to as int);
    assert forall|c: int| 0 <= c < to implies #[trigger] a[c] == b[c] by {
        lemma_place_in_row(row, c, to as int);
    }
    assert(a =~= b);
}

fn overwrite(buf: &mut Vec<u32>, base: usize, row: &[u32])
    requires
        base + row@.len() <= old(buf)@.len(),
    ensures
        final(buf)@ == overwritten(old(buf)@, base as int, row@),
{
    let ghost before = buf@;
    let mut i: usize = 0;
    while i < row.len()
        invariant
            i <= row@.len(),
            buf@.len() == before.len(),
            base + row@.len() <= before.len(),
            forall|j: int|
                0 <= j < before.len() ==> #[trigger] buf@[j] == if base <= j < base + i {
                    row@[j - base]
                } else {
                    before[j]
                },
        decreases row@.len() - i,
    {
        assert(buf@.len() == buf.len());
        buf.set(base + i, row[i]);
        i += 1;
    }
    assert(buf@ =~= overwritten(before, base as int, row@));
}

/// Row `offset` of a page lies within its buffers.
pub proof fn lemma_row_range(offset: int, head_elements: int)
    requires
        0 <= offset < PAGE_TOKENS,
        0 <= head_elements,
    ensures
        0 <= offset * head_elements,
        offset * head_elements + head_elements <= PAGE_TOKENS * head_elements,
{
    assert(0 <= offset * head_elements) by (nonlinear_arith)
        requires
            0 <= offset,
            0 <= head_elements,
    ;
    assert(offset * head_elements + head_elements <= 16 * head_elements) by (nonlinear_arith)
        requires
            offset < 16,
            0 <= head_elements,
    ;
}

proof fn lemma_rows_apart(a: int, b: int, n: int)
    requires
        0 <= a,
        0 <= b,
        a != b,
        0 <= n,
    ensures
        a * n + n <= b * n || b * n + n <= a * n,
{
    if a < b {
        assert(a * n + n <= b * n) by (nonlinear_arith)
            requires
                a + 1 <= b,
                0 <= n,
        ;
    } else {
        assert(b * n + n <= a * n) by (nonlinear_arith)
            requires
                b + 1 <= a,
                0 <= n,
        ;
    }
}

/// What is written to a row is read from it, and the other rows stay as they were.
pub proof fn law_page_write_read(p: PageView, offset: usize, k: Seq<u32>, v: Seq<u32>, other: int)
    requires
        p.wf(),
        offset < PAGE_TOKENS,
        k.len() == p.head_elements,
        v.len() == p.head_elements,
        0 <= other < PAGE_TOKENS,
    ensures
        p.with_token(offset, k, v).wf(),
        p.with_token(offset, k, v).key_row(offset as int) == k,
        p.with_token(offset, k, v).value_row(offset as int) == v,
        other != offset ==> p.with_token(offset, k, v).key_row(other) == p.key_row(other),
        other != offset ==> p.with_token(offset, k, v).value_row(other) == p.value_row(other),
{
    let q = p.with_token(offset, k, v);
    let n = p.head_elements as int;
    lemma_row_range(offset as int, n);
    lemma_row_range(other, n);
    assert(q.key_row(offset as int) =~= k);
    assert(q.value_row(offset as int) =~= v);
    if other != offset {
        lemma_rows_apart(offset as int, other, n);
        assert(q.key_row(other) =~= p.key_row(other));
        assert(q.value_row(other) =~= p.value_row(other));
    }
}

impl Page {
    /// A page without rows.
    pub fn empty(layer: usize) -> (p: Self)
        ensures
            p@ == empty_page(layer),
            p@.wf(),
    {
        Page { k: Vec::new(), v: Vec::new(), layer, n_tokens: 0, head_elements: 0 }
    }

    /// Makes room for rows of `head_elements` elements. Does nothing where there is room already.
    /// Rows of another width are cut or filled up with zeros.
    pub fn ensure_capacity(&mut self, head_elements: usize)
        requires
            PAGE_TOKENS * head_elements <= usize::MAX,
        ensures
            final(self)@ == old(self)@.with_capacity(head_elements),
    {
        if self.head_elements == 0 || self.head_elements == head_elements {
            let needed: usize = PAGE_TOKENS * head_elements;
            resize_zero(&mut self.k, needed);
            resize_zero(&mut self.v, needed);
        } else {
            self.k = relay(&self.k, self.head_elements, head_elements);
            self.v = relay(&self.v, self.head_elements, head_elements);
        }
        self.head_elements = head_elements;
    }

    /// Writes the rows of a token. `true` if the page was full before.
    pub fn write_token(&mut self, token_offset_in_page: usize, k: &[u32], v: &[u32]) -> (r: bool)
        requires
            old(self)@.wf(),
            token_offset_in_page < PAGE_TOKENS,
            k@.len() == old(self)@.head_elements,
            v@.len() == old(self)@.head_elements,
        ensures
            final(self)@ == old(self)@.with_token(token_offset_in_page, k@, v@),
            final(self)@.wf(),
            r == (old(self)@.n_tokens == PAGE_TOKENS),
    {
        let was_full: bool = self.n_tokens == PAGE_TOKENS;
        proof {
            lemma_row_range(token_offset_in_page as int, self.head_elements as int);
            assert(self.k@.len() == self.k.len());
        }
        let base: usize = token_offset_in_page * self.head_elements;
        overwrite(&mut self.k, base, k);
        overwrite(&mut self.v, base, v);
        if token_offset_in_page >= self.n_tokens {
            self.n_tokens = token_offset_in_page + 1;
        }
        was_full
    }
}

impl Clone for Page {
    fn clone(&self) -> (r: Self)
        ensures
            r@ == self@,
    {
        let k: Vec<u32> = self.k.clone();
        let v: Vec<u32> = self.v.clone();
        assert(k@ =~= self.k@);
        assert(v@ =~= self.v@);
        Page {
            k,
            v,
            layer: self.layer,
            n_tokens: self.n_tokens,
            head_elements: self.head_elements,
        }
    }
}

/// The pages of one sequence in one layer.
#[derive(Debug)]
pub struct PageTable {
    pub pages: Vec<Option<Page>>,
    /// The slots whose page was freed.
    pub free_list: Vec<usize>,
    /// Number of tokens in the sequence.
    pub seq_len: usize,
    /// Number of elements in a row.
    pub head_elements: usize,
    pub layer: usize,
    /// How often a slot was taken over from another sequence.
    pub share_count: HashMap<usize, usize>,
}

/// What a page table holds.
pub struct TableView {
    pub pages: Seq<Option<PageView>>,
    pub free_list: Seq<usize>,
    pub seq_len: usize,
    pub head_elements: usize,
    pub layer: usize,
    pub shares: Map<usize, usize>,
}

/// What a slot holds.
pub open spec fn slot_view(slot: Option<Page>) -> Option<PageView> {
    match slot {
        Some(p) => Some(p@),
        None => None,
    }
}

impl View for PageTable {
    type V = TableView;

    open spec fn view(&self) -> TableView {
        TableView {
            pages: self.pages@.map_values(|s: Option<Page>| slot_view(s)),
            free_list: self.free_list@,
            seq_len: self.seq_len,
            head_elements: self.head_elements,
            layer: self.layer,
            shares: self.share_count@,
        }
    }
}

/// Number of slots that hold a page.
pub open spec fn count_pages(pages: Seq<Option<PageView>>) -> nat
    decreases pages.len(),
{
    if pages.len() == 0 {
        0
    } else {
        count_pages(pages.drop_last()) + if pages.last() is Some {
            1nat
        } else {
            0nat
        }
    }
}

impl TableView {
    /// All pages are well formed and belong to the layer, and the free list holds exactly the
    /// slots without a page, each once.
    pub open spec fn wf(self) -> bool {
        &&& forall|i: int|
            0 <= i < self.pages.len() ==> (#[trigger] self.pages[i] matches Some(p) ==> p.wf()
                && p.layer == self.layer)
        &&& forall|i: int|
            0 <= i < self.pages.len() ==> (#[trigger] self.pages[i] is None
                <==> self.free_list.contains(i as usize))
        &&& forall|i: int|
            0 <= i < self.free_list.len() ==> #[trigger] self.free_list[i] < self.pages.len()
        &&& self.free_list.no_duplicates()
        &&& self.pages.len() <= usize::MAX
    }

    /// The slot and the row of a token.
    pub open spec fn place(self, t: int) -> Option<(int, int)> {
        let page = t / PAGE_TOKENS as int;
        if t < 0 || t >= self.seq_len || page >= self.pages.len() || self.pages[page] is None {
            None
        } else {
            Some((page, t % PAGE_TOKENS as int))
        }
    }

    /// The table with a fresh page in a new slot.
    pub open spec fn with_page(self) -> TableView {
        TableView {
            pages: self.pages.push(
                Some(empty_page(self.layer).with_capacity(self.head_elements)),
            ),
            ..self
        }
    }

    /// The table without the page in a slot.
    pub open spec fn without_page(self, idx: usize) -> TableView {
        if idx < self.pages.len() && self.pages[idx as int] is Some {
            TableView {
                pages: self.pages.update(idx as int, None),
                free_list: self.free_list.push(idx),
                shares: self.shares.remove(idx),
                ..self
            }
        } else {
            self
        }
    }

    /// The width of a row once a token with `n` elements has been seen.
    pub open spec fn width_for(self, n: nat) -> usize {
        if self.head_elements == 0 {
            n as usize
        } else {
            self.head_elements
        }
    }

    /// A token with these rows can be appended: the rows have the width of the table, and the
    /// next row lies in a page or in the next slot to be made.
    pub open spec fn accepts(self, k: Seq<u32>, v: Seq<u32>) -> bool {
        let slot = self.seq_len as int / PAGE_TOKENS as int;
        &&& k.len() == self.width_for(k.len())
        &&& v.len() == k.len()
        &&& PAGE_TOKENS * k.len() <= usize::MAX
        &&& self.seq_len < usize::MAX
        &&& slot == self.pages.len() || (slot < self.pages.len() && self.pages[slot] is Some)
    }

    /// The table after a token was appended.
    pub open spec fn with_token(self, k: Seq<u32>, v: Seq<u32>) -> TableView {
        let width = self.width_for(k.len());
        let slot = self.seq_len as int / PAGE_TOKENS as int;
        let row = (self.seq_len as int % PAGE_TOKENS as int) as usize;
        let sized = TableView { head_elements: width, ..self };
        let ready = if slot == self.pages.len() {
            sized.with_page()
        } else {
            sized
        };
        TableView {
            pages: ready.pages.update(
                slot,
                Some(ready.pages[slot].unwrap().with_capacity(width).with_token(row, k, v)),
            ),
            seq_len: (self.seq_len + 1) as usize,
            ..ready
        }
    }

    /// The table after a full page was taken over from another sequence.
    pub open spec fn with_shared(self, page: PageView) -> TableView {
        let slot = self.pages.len() as usize;
        TableView {
            pages: self.pages.push(Some(page)),
            shares: self.shares.insert(
                slot,
                (if self.shares.contains_key(slot) {
                    self.shares[slot] + 1
                } else {
                    1int
                }) as usize,
            ),
            head_elements: if self.head_elements == 0 {
                page.head_elements
            } else {
                self.head_elements
            },
            seq_len: (self.seq_len + page.n_tokens) as usize,
            ..self
        }
    }

    /// The key row of a token.
    pub open spec fn key(self, t: int) -> Seq<u32> {
        let (page, row) = self.place(t).unwrap();
        self.pages[page].unwrap().key_row(row)
    }

    /// The value row of a token.
    pub open spec fn value(self, t: int) -> Seq<u32> {
        let (page, row) = self.place(t).unwrap();
        self.pages[page].unwrap().value_row(row)
    }
}

// ---- Laws ----

proof fn lemma_resized_same(s: Seq<u32>, n: int)
    requires
        n == s.len(),
    ensures
        resized(s, n) == s,
{
    assert(s.take(n) =~= s);
}

/// A page with room for another width has the rows it had, cut or filled up with zeros; where it
/// has the width already, nothing changes.
pub proof fn law_page_resized(p: PageView, width: usize, row: int)
    requires
        p.wf(),
        0 <= row < PAGE_TOKENS,
    ensures
        p.with_capacity(width).wf(),
        p.with_capacity(width).head_elements == width,
        p.with_capacity(width).key_row(row) == resized(p.key_row(row), width as int),
        p.with_capacity(width).value_row(row) == resized(p.value_row(row), width as int),
        p.head_elements == width ==> p.with_capacity(width) == p,
        p.with_capacity(width).with_capacity(width) == p.with_capacity(width),
{
    let q = p.with_capacity(width);
    lemma_row_range(row, p.head_elements as int);
    lemma_row_range(row, width as int);
    assert(PAGE_TOKENS * width >= 0);
    if p.head_elements == 0 || p.head_elements == width {
        assert(q.key_row(row) =~= resized(p.key_row(row), width as int));
        assert(q.value_row(row) =~= resized(p.value_row(row), width as int));
    } else {
        lemma_relaid_row(p.k, p.head_elements, width, row);
        lemma_relaid_row(p.v, p.head_elements, width, row);
    }
    if p.head_elements == width {
        lemma_resized_same(p.k, PAGE_TOKENS * width);
        lemma_resized_same(p.v, PAGE_TOKENS * width);
    }
    lemma_resized_same(q.k, PAGE_TOKENS * width);
    lemma_resized_same(q.v, PAGE_TOKENS * width);
}

/// A token that was appended is found and read where it was written, and every token that could
/// be found before is found as before. It is read as before, too, but that the rows of the page
/// that is written take the width of the new one.
pub proof fn law_append_read(t: TableView, k: Seq<u32>, v: Seq<u32>, i: int)
    requires
        t.wf(),
        t.accepts(k, v),
    ensures
        t.with_token(k, v).wf(),
        t.with_token(k, v).seq_len == t.seq_len + 1,
        t.with_token(k, v).place(t.seq_len as int) == Some(
            (t.seq_len as int / PAGE_TOKENS as int, t.seq_len as int % PAGE_TOKENS as int),
        ),
        t.with_token(k, v).key(t.seq_len as int) == k,
        t.with_token(k, v).value(t.seq_len as int) == v,
        t.place(i) is Some ==> t.with_token(k, v).place(i) == t.place(i),
        t.place(i) is Some ==> if i / PAGE_TOKENS as int == t.seq_len as int / PAGE_TOKENS as int {
            &&& t.with_token(k, v).key(i) == resized(t.key(i), k.len() as int)
            &&& t.with_token(k, v).value(i) == resized(t.value(i), k.len() as int)
        } else {
            &&& t.with_token(k, v).key(i) == t.key(i)
            &&& t.with_token(k, v).value(i) == t.value(i)
        },
        t.place(i) is Some && t.pages[i / PAGE_TOKENS as int].unwrap().head_elements == k.len()
            ==> t.with_token(k, v).key(i) == t.key(i) && t.with_token(k, v).value(i) == t.value(i),
{
    let after = t.with_token(k, v);
    let slot = t.seq_len as int / PAGE_TOKENS as int;
    let row = t.seq_len as int % PAGE_TOKENS as int;
    let width = t.width_for(k.len());
    let fresh = empty_page(t.layer).with_capacity(width);
    let was = if slot == t.pages.len() {
        fresh
    } else {
        t.pages[slot].unwrap()
    };
    assert(width == k.len());
    lemma_resized_same(fresh.k, PAGE_TOKENS * width);
    lemma_resized_same(fresh.v, PAGE_TOKENS * width);
    assert(was.wf());
    let sized = was.with_capacity(width);
    law_page_resized(was, width, row);
    law_page_write_read(sized, row as usize, k, v, row);
    let written = sized.with_token(row as usize, k, v);
    assert(after.pages[slot] == Some(written));
    assert(after.pages.len() == if slot == t.pages.len() {
        t.pages.len() + 1
    } else {
        t.pages.len()
    });
    assert forall|j: int| 0 <= j < after.pages.len() && j != slot implies #[trigger] after.pages[j]
        == t.pages[j] by {}
    assert forall|j: int| 0 <= j < after.pages.len() implies (#[trigger] after.pages[j] is None
        <==> after.free_list.contains(j as usize)) by {
        if j == slot {
            if after.free_list.contains(j as usize) {
                let x = choose|x: int|
                    0 <= x < t.free_list.len() && t.free_list[x] == j as usize;
                assert(t.free_list[x] < t.pages.len());
                assert(t.pages[slot] is None);
            }
        } else {
            assert(t.pages[j] is None <==> t.free_list.contains(j as usize));
        }
    }
    assert(after.wf());
    if t.place(i) is Some {
        let page = i / PAGE_TOKENS as int;
        if page == slot {
            law_page_resized(was, width, i % PAGE_TOKENS as int);
            law_page_write_read(sized, row as usize, k, v, i % PAGE_TOKENS as int);
        }
    }
}

/// A token in a freed page is not found, and tokens in other pages are found as before.
pub proof fn law_free_lookup(t: TableView, idx: usize, i: int)
    requires
        t.wf(),
    ensures
        t.without_page(idx).wf(),
        i / PAGE_TOKENS as int == idx ==> t.without_page(idx).place(i) is None,
        i / PAGE_TOKENS as int != idx ==> t.without_page(idx).place(i) == t.place(i),
        t.without_page(idx).without_page(idx) == t.without_page(idx),
{
    let after = t.without_page(idx);
    if idx < t.pages.len() && t.pages[idx as int] is Some {
        assert(!t.free_list.contains(idx));
        assert forall|j: int| 0 <= j < after.pages.len() implies (#[trigger] after.pages[j] is None
            <==> after.free_list.contains(j as usize)) by {
            assert(t.pages[j] is None <==> t.free_list.contains(j as usize));
            if j == idx {
                assert(after.free_list[t.free_list.len() as int] == idx);
            } else if t.free_list.contains(j as usize) {
                let x = choose|x: int| 0 <= x < t.free_list.len() && t.free_list[x] == j as usize;
                assert(after.free_list[x] == j as usize);
            } else if after.free_list.contains(j as usize) {
                let x = choose|x: int|
                    0 <= x < after.free_list.len() && after.free_list[x] == j as usize;
                if x < t.free_list.len() {
                    assert(t.free_list[x] == j as usize);
                }
            }
        }
        assert(after.wf());
    }
}

/// A new page takes the next slot; freed slots are not used again.
pub proof fn law_alloc_keeps_wf(t: TableView)
    requires
        t.wf(),
        t.pages.len() < usize::MAX,
    ensures
        t.with_page().wf(),
        t.with_page().pages.len() == t.pages.len() + 1,
        t.with_page().free_list == t.free_list,
{
    let after = t.with_page();
    let fresh = empty_page(t.layer).with_capacity(t.head_elements);
    assert(fresh.wf());
    assert forall|j: int| 0 <= j < after.pages.len() implies (#[trigger] after.pages[j] is None
        <==> after.free_list.contains(j as usize)) by {
        if j == t.pages.len() {
            if after.free_list.contains(j as usize) {
                let x = choose|x: int|
                    0 <= x < t.free_list.len() && t.free_list[x] == j as usize;
                assert(t.free_list[x] < t.pages.len());
            }
        } else {
            assert(t.pages[j] is None <==> t.free_list.contains(j as usize));
        }
    }
}

proof fn lemma_count(pages: Seq<Option<PageView>>, free: Set<usize>)
    requires
        free.finite(),
        pages.len() <= usize::MAX,
        forall|i: int|
            0 <= i < pages.len() ==> (#[trigger] pages[i] is None <==> free.contains(i as usize)),
        forall|x: usize| #[trigger] free.contains(x) ==> x < pages.len(),
    ensures
        count_pages(pages) + free.len() == pages.len(),
    decreases pages.len(),
{
    if pages.len() == 0 {
        assert(free =~= Set::<usize>::empty());
    } else {
        let init = pages.drop_last();
        let last = (pages.len() - 1) as usize;
        let rest = free.remove(last);
        assert forall|i: int| 0 <= i < init.len() implies (#[trigger] init[i] is None
            <==> rest.contains(i as usize)) by {
            assert(init[i] == pages[i]);
        }
        assert(pages.last() == pages[last as int]);
        assert forall|x: usize| #[trigger] rest.contains(x) implies x < init.len() by {
            assert(free.contains(x));
        }
        lemma_count(init, rest);
        if !free.contains(last) {
            assert(rest =~= free);
        }
    }
}

/// The slots with a page and the free list together are all slots.
pub proof fn law_materialized(t: TableView)
    requires
        t.wf(),
    ensures
        count_pages(t.pages) + t.free_list.len() == t.pages.len(),
{
    let free = t.free_list.to_set();
    t.free_list.unique_seq_to_set();
    assert forall|i: int| 0 <= i < t.pages.len() implies (#[trigger] t.pages[i] is None
        <==> free.contains(i as usize)) by {}
    assert forall|x: usize| #[trigger] free.contains(x) implies x < t.pages.len() by {
        let j = choose|j: int| 0 <= j < t.free_list.len() && t.free_list[j] == x;
        assert(t.free_list[j] < t.pages.len());
    }
    vstd::seq_lib::seq_to_set_is_finite(t.free_list);
    lemma_count(t.pages, free);
}

/// A shared page keeps its rows: the tokens of the prefix are read from it.
pub proof fn law_shared_prefix(t: TableView, page: PageView, i: int)
    requires
        t.wf(),
        page.wf(),
        page.layer == t.layer,
        page.n_tokens == PAGE_TOKENS,
        t.seq_len == t.pages.len() * PAGE_TOKENS,
        t.seq_len + PAGE_TOKENS <= usize::MAX,
        t.pages.len() < usize::MAX,
        0 <= i < PAGE_TOKENS,
    ensures
        t.with_shared(page).wf(),
        t.with_shared(page).seq_len == t.seq_len + PAGE_TOKENS,
        t.with_shared(page).key(t.seq_len + i) == page.key_row(i),
        t.with_shared(page).value(t.seq_len + i) == page.value_row(i),
{
    let after = t.with_shared(page);
    let pos = t.seq_len + i;
    assert(pos / 16 == t.pages.len() && pos % 16 == i);
    assert forall|j: int| 0 <= j < after.pages.len() implies (#[trigger] after.pages[j] is None
        <==> after.free_list.contains(j as usize)) by {
        if j == t.pages.len() {
            if after.free_list.contains(j as usize) {
                let x = choose|x: int|
                    0 <= x < t.free_list.len() && t.free_list[x] == j as usize;
                assert(t.free_list[x] < t.pages.len());
            }
        } else {
            assert(t.pages[j] is None <==> t.free_list.contains(j as usize));
        }
    }
}

// ---- Operations ----

impl PageTable {
    /// A table without pages.
    pub fn new(layer: usize, head_elements: usize) -> (t: Self)
        ensures
            t@ == (TableView {
                pages: Seq::empty(),
                free_list: Seq::empty(),
                seq_len: 0,
                head_elements,
                layer,
                shares: Map::empty(),
            }),
            t@.wf(),
    {
        let t = PageTable {
            pages: Vec::new(),
            free_list: Vec::new(),
            seq_len: 0,
            head_elements,
            layer,
            share_count: HashMap::new(),
        };
        assert(t@.pages =~= Seq::<Option<PageView>>::empty());
        t
    }

    /// The layer of the table.
    pub fn layer(&self) -> (r: usize)
        ensures
            r == self@.layer,
    {
        self.layer
    }

    /// Number of elements in a row.
    pub fn head_elements(&self) -> (r: usize)
        ensures
            r == self@.head_elements,
    {
        self.head_elements
    }

    /// Sets the number of elements in a row. A page that is there already takes it at its next
    /// write.
    pub fn set_head_elements(&mut self, head_elements: usize)
        ensures
            final(self)@ == (TableView { head_elements, ..old(self)@ }),
    {
        self.head_elements = head_elements;
    }

    /// Puts a fresh page into the next slot and gives the slot.
    pub fn alloc_page(&mut self) -> (idx: usize)
        requires
            PAGE_TOKENS * old(self)@.head_elements <= usize::MAX,
        ensures
            final(self)@ == old(self)@.with_page(),
            idx == old(self)@.pages.len(),
    {
        let idx: usize = self.pages.len();
        let mut page = Page::empty(self.layer);
        page.ensure_capacity(self.head_elements);
        self.pages.push(Some(page));
        assert(self@.pages =~= old(self)@.with_page().pages);
        idx
    }

    /// Drops the page in a slot and puts the slot on the free list. A slot without a page, or one
    /// that does not exist, is left alone.
    pub fn free(&mut self, idx: usize)
        ensures
            final(self)@ == old(self)@.without_page(idx),
    {
        if idx >= self.pages.len() {
            return ;
        }
        assert(self@.pages[idx as int] == slot_view(self.pages@[idx as int]));
        if self.pages[idx].is_some() {
            self.pages.set(idx, None);
            self.free_list.push(idx);
            self.share_count.remove(&idx);
            assert(self@.pages =~= old(self)@.without_page(idx).pages);
        }
    }

    /// The slot and the row of a token.
    pub fn lookup(&self, token_pos: usize) -> (r: Option<(usize, usize)>)
        ensures
            match r {
                Some((page, row)) => self@.place(token_pos as int) == Some(
                    (page as int, row as int),
                ),
                None => self@.place(token_pos as int) is None,
            },
    {
        if token_pos >= self.seq_len {
            return None;
        }
        let page_idx: usize = token_pos / PAGE_TOKENS;
        let offset: usize = token_pos % PAGE_TOKENS;
        if page_idx >= self.pages.len() {
            return None;
        }
        assert(self@.pages[page_idx as int] == slot_view(self.pages@[page_idx as int]));
        match &self.pages[page_idx] {
            Some(_) => Some((page_idx, offset)),
            None => None,
        }
    }

    /// Appends a token and gives its slot and row.
    pub fn append_token(&mut self, k: &[u32], v: &[u32]) -> (r: (usize, usize))
        requires
            old(self)@.wf(),
            old(self)@.accepts(k@, v@),
        ensures
            final(self)@ == old(self)@.with_token(k@, v@),
            final(self)@.wf(),
            r.0 == old(self)@.seq_len as int / PAGE_TOKENS as int,
            r.1 == old(self)@.seq_len as int % PAGE_TOKENS as int,
    {
        let ghost before = self@;
        proof {
            law_append_read(before, k@, v@, 0);
        }
        if self.head_elements == 0 && k.len() > 0 {
            self.head_elements = k.len();
        }
        let page_idx: usize = self.seq_len / PAGE_TOKENS;
        let offset: usize = self.seq_len % PAGE_TOKENS;
        let ghost sized = self@;
        assert(sized.pages =~= before.pages);
        if page_idx == self.pages.len() {
            self.alloc_page();
        }
        let ghost ready = self@;
        let width: usize = self.head_elements;
        assert(ready.pages[page_idx as int] == slot_view(self.pages@[page_idx as int]));
        match &mut self.pages[page_idx] {
            Some(page) => {
                page.ensure_capacity(width);
                page.write_token(offset, k, v);
            },
            None => {},
        }
        self.seq_len = self.seq_len + 1;
        assert(self@.pages =~= before.with_token(k@, v@).pages);
        (page_idx, offset)
    }

    /// Takes over a full page of another sequence as the next page of this one and gives its
    /// slot.
    pub fn share_prefix_from(&mut self, src_page: Page) -> (idx: usize)
        requires
            src_page@.layer == old(self)@.layer,
            src_page@.n_tokens == PAGE_TOKENS,
            old(self)@.seq_len == old(self)@.pages.len() * PAGE_TOKENS,
            old(self)@.seq_len + PAGE_TOKENS <= usize::MAX,
            old(self)@.shares.contains_key(old(self)@.pages.len() as usize) ==> old(
                self,
            )@.shares[old(self)@.pages.len() as usize] < usize::MAX,
        ensures
            final(self)@ == old(self)@.with_shared(src_page@),
            idx == old(self)@.pages.len(),
    {
        let idx: usize = self.pages.len();
        let n_tokens: usize = src_page.n_tokens;
        let head_elements: usize = src_page.head_elements;
        self.pages.push(Some(src_page));
        let count: usize = match self.share_count.get(&idx) {
            Some(n) => *n + 1,
            None => 1,
        };
        self.share_count.insert(idx, count);
        if self.head_elements == 0 {
            self.head_elements = head_elements;
        }
        self.seq_len = self.seq_len + n_tokens;
        assert(self@.pages =~= old(self)@.with_shared(src_page@).pages);
        idx
    }

    /// Number of slots that hold a page.
    pub fn n_materialized(&self) -> (n: usize)
        ensures
            n == count_pages(self@.pages),
    {
        let ghost all = self@.pages;
        let mut n: usize = 0;
        let mut i: usize = 0;
        while i < self.pages.len()
            invariant
                i <= self.pages@.len(),
                all == self@.pages,
                n <= i,
                n == count_pages(all.take(i as int)),
            decreases self.pages@.len() - i,
        {
            proof {
                let next = all.take(i + 1);
                assert(next.drop_last() =~= all.take(i as int));
                assert(next.last() == slot_view(self.pages@[i as int]));
            }
            if self.pages[i].is_some() {
                n += 1;
            }
            i += 1;
        }
        assert(all.take(i as int) =~= all);
        n
    }

    /// Number of slots.
    pub fn n_slots(&self) -> (n: usize)
        ensures
            n == self@.pages.len(),
    {
        self.pages.len()
    }
}

impl Default for PageTable {
    fn default() -> (t: Self)
        ensures
            t@ == (TableView {
                pages: Seq::empty(),
                free_list: Seq::empty(),
                seq_len: 0,
                head_elements: 0,
                layer: 0,
                shares: Map::empty(),
            }),
    {
        PageTable::new(0, 0)
    }
}

impl Clone for PageTable {
    fn clone(&self) -> (t: Self)
        ensures
            t@ == self@,
    {
        let mut pages: Vec<Option<Page>> = Vec::new();
        let mut i: usize = 0;
        while i < self.pages.len()
            invariant
                i <= self.pages@.len(),
                pages@.len() == i,
                forall|j: int|
                    0 <= j < i ==> slot_view(#[trigger] pages@[j]) == slot_view(self.pages@[j]),
            decreases self.pages@.len() - i,
        {
            pages.push(
                match &self.pages[i] {
                    Some(page) => Some(page.clone()),
                    None => None,
                },
            );
            i += 1;
        }
        let free_list: Vec<usize> = self.free_list.clone();
        assert(free_list@ =~= self.free_list@);
        let t = PageTable {
            pages,
            free_list,
            seq_len: self.seq_len,
            head_elements: self.head_elements,
            layer: self.layer,
            share_count: self.share_count.clone(),
        };
        assert(t@.pages =~= self@.pages);
        t
    }
}

} // verus!
