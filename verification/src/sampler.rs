//! Choice of the next token from logits.
//!
//! Logits and probabilities come by their bit patterns. The choices are made here; exponentials
//! and sums are the caller's.

use vstd::prelude::*;

use crate::float_bits::{
    bits_finite, bits_gt, bits_nan, gt, is_finite, is_nan, order_key, value_order,
};

verus! {

/// The bit pattern of negative infinity.
pub const NEG_INFINITY: u32 = 0xFF80_0000;

/// The bit pattern of 1.
pub const ONE: u32 = 0x3F80_0000;

/// The candidate is allowed: it is not the excluded one, and its logit is finite.
pub open spec fn allowed(logits: Seq<u32>, excluded: u32, i: int) -> bool {
    0 <= i < logits.len() && i as u32 != excluded && is_finite(logits[i])
}

/// `i` is the first of the highest logits among those allowed.
pub open spec fn is_argmax(logits: Seq<u32>, excluded: u32, i: int) -> bool {
    &&& allowed(logits, excluded, i)
    &&& forall|j: int|
        #[trigger] allowed(logits, excluded, j) ==> value_order(logits[j]) < value_order(logits[i])
            || (value_order(logits[j]) == value_order(logits[i]) && i <= j)
}

/// What an argmax returns: the first of the highest finite logits, or 0 where there is none.
pub open spec fn argmax_of(logits: Seq<u32>, excluded: u32, r: u32) -> bool {
    ||| exists|i: int| is_argmax(logits, excluded, i) && r == i as u32
    ||| r == 0 && forall|i: int| !#[trigger] allowed(logits, excluded, i)
}

/// Nothing else is the argmax.
pub proof fn law_argmax_unique(logits: Seq<u32>, excluded: u32, a: u32, b: u32)
    requires
        argmax_of(logits, excluded, a),
        argmax_of(logits, excluded, b),
    ensures
        a == b,
{
    if exists|i: int| is_argmax(logits, excluded, i) && a == i as u32 {
        let i = choose|i: int| is_argmax(logits, excluded, i) && a == i as u32;
        assert(allowed(logits, excluded, i));
        if exists|j: int| is_argmax(logits, excluded, j) && b == j as u32 {
            let j = choose|j: int| is_argmax(logits, excluded, j) && b == j as u32;
            assert(allowed(logits, excluded, j));
            assert(i == j);
        }
    } else if exists|j: int| is_argmax(logits, excluded, j) && b == j as u32 {
        let j = choose|j: int| is_argmax(logits, excluded, j) && b == j as u32;
        assert(allowed(logits, excluded, j));
    }
}

fn argmax_where(logits: &[u32], excluded: u32, exclude: bool) -> (r: u32)
    ensures
        exclude ==> argmax_of(logits@, excluded, r),
        !exclude ==> plain_argmax(logits@, r),
{
    let mut best: Option<usize> = None;
    let mut i: usize = 0;
    while i < logits.len()
        invariant
            i <= logits@.len(),
            match best {
                Some(b) => {
                    &&& b < i
                    &&& is_finite(logits@[b as int])
                    &&& exclude ==> b as u32 != excluded
                    &&& forall|j: int|
                        0 <= j < i && is_finite(#[trigger] logits@[j]) && (exclude ==> j as u32
                            != excluded) ==> value_order(logits@[j]) < value_order(
                            logits@[b as int],
                        ) || (value_order(logits@[j]) == value_order(logits@[b as int]) && b <= j)
                },
                None => forall|j: int|
                    0 <= j < i && (exclude ==> j as u32 != excluded) ==> !is_finite(
                        #[trigger] logits@[j],
                    ),
            },
        decreases logits@.len() - i,
    {
        let v: u32 = logits[i];
        if !(exclude && i as u32 == excluded) && bits_finite(v) {
            match best {
                Some(b) => {
                    if order_key(v) > order_key(logits[b]) {
                        best = Some(i);
                    }
                },
                None => {
                    best = Some(i);
                },
            }
        }
        i += 1;
    }
    match best {
        Some(b) => {
            proof {
                if exclude {
                    assert(is_argmax(logits@, excluded, b as int));
                } else {
                    assert(is_first_max(logits@, b as int));
                }
            }
            b as u32
        },
        None => 0,
    }
}

/// `i` is the first of the highest finite logits.
pub open spec fn is_first_max(logits: Seq<u32>, i: int) -> bool {
    &&& 0 <= i < logits.len()
    &&& is_finite(logits[i])
    &&& forall|j: int|
        0 <= j < logits.len() && is_finite(#[trigger] logits[j]) ==> value_order(logits[j])
            < value_order(logits[i]) || (value_order(logits[j]) == value_order(logits[i]) && i
            <= j)
}

/// What an argmax over all logits returns: the first of the highest finite ones, or 0.
pub open spec fn plain_argmax(logits: Seq<u32>, r: u32) -> bool {
    ||| exists|i: int| is_first_max(logits, i) && r == i as u32
    ||| r == 0 && forall|i: int| 0 <= i < logits.len() ==> !is_finite(#[trigger] logits[i])
}

/// The first of the highest finite logits, or 0.
pub fn argmax(logits: &[u32]) -> (r: u32)
    ensures
        plain_argmax(logits@, r),
{
    argmax_where(logits, 0, false)
}

/// The first of the highest finite logits but for one token, or 0.
pub fn argmax_excluding(logits: &[u32], excluded: u32) -> (r: u32)
    ensures
        argmax_of(logits@, excluded, r),
{
    argmax_where(logits, excluded, true)
}

// ---- Candidates ----

/// Candidate `a` comes before candidate `b`: its logit is higher, or equal and further left.
pub open spec fn before(logits: Seq<u32>, a: int, b: int) -> bool {
    value_order(logits[a]) > value_order(logits[b]) || (value_order(logits[a]) == value_order(
        logits[b],
    ) && a < b)
}

/// `ids` are the best `k` finite logits among the first `n`, best first: all of them where there
/// are no more than `k`.
pub open spec fn are_best(logits: Seq<u32>, n: int, k: int, ids: Seq<usize>) -> bool {
    &&& ids.len() <= k
    &&& forall|i: int|
        0 <= i < ids.len() ==> (#[trigger] ids[i]) < n && is_finite(logits[ids[i] as int])
    &&& forall|i: int, j: int|
        0 <= i < j < ids.len() ==> before(logits, #[trigger] ids[i] as int, #[trigger] ids[j] as int)
    &&& forall|x: int|
        0 <= x < n && is_finite(#[trigger] logits[x]) && !ids.contains(x as usize) ==> ids.len()
            == k && (k > 0 ==> before(logits, ids.last() as int, x))
}

/// The number of candidates that are kept: all for 0, and never more than 1024 or than there are.
pub open spec fn effective_top_k(n: nat, top_k: usize) -> nat {
    if top_k == 0 {
        n
    } else if top_k > 1024 {
        if n < 1024 {
            n
        } else {
            1024
        }
    } else if top_k < n {
        top_k as nat
    } else {
        n
    }
}

fn clamp_top_k(n: usize, top_k: usize) -> (r: usize)
    ensures
        r == effective_top_k(n as nat, top_k),
{
    if top_k == 0 {
        n
    } else if top_k > 1024 {
        if n < 1024 {
            n
        } else {
            1024
        }
    } else if top_k < n {
        top_k
    } else {
        n
    }
}

/// The candidates for sampling, best first.
pub fn top_candidates(logits: &[u32], top_k: usize) -> (r: Vec<usize>)
    ensures
        are_best(
            logits@,
            logits@.len() as int,
            effective_top_k(logits@.len(), top_k) as int,
            r@,
        ),
{
    let k: usize = clamp_top_k(logits.len(), top_k);
    let mut ids: Vec<usize> = Vec::new();
    let mut i: usize = 0;
    while i < logits.len()
        invariant
            i <= logits@.len(),
            are_best(logits@, i as int, k as int, ids@),
        decreases logits@.len() - i,
    {
        let v: u32 = logits[i];
        let ghost old_ids = ids@;
        if bits_finite(v) && k > 0 {
            let full: bool = ids.len() == k;
            let better: bool = !full || order_key(v) > order_key(logits[ids[k - 1]]);
            if better {
                if full {
                    let _ = ids.pop();
                }
                let ghost base = ids@;
                let mut j: usize = ids.len();
                while j > 0 && order_key(logits[ids[j - 1]]) < order_key(v)
                    invariant
                        j <= ids@.len(),
                        ids@ == base,
                        i < logits@.len(),
                        v == logits@[i as int],
                        forall|x: int| 0 <= x < base.len() ==> (#[trigger] base[x]) < i,
                        forall|x: int|
                            j <= x < base.len() ==> before(
                                logits@,
                                i as int,
                                #[trigger] base[x] as int,
                            ),
                    decreases j,
                {
                    j -= 1;
                }
                ids.insert(j, i);
                proof {
                    lemma_insert_best(logits@, i as int, k as int, old_ids, base, j as int, ids@);
                }
            } else {
                proof {
                    lemma_skip_best(logits@, i as int, k as int, old_ids);
                }
            }
        } else {
            proof {
                if k == 0 {
                    lemma_skip_best(logits@, i as int, k as int, old_ids);
                } else {
                    assert(are_best(logits@, i + 1, k as int, ids@));
                }
            }
        }
        i += 1;
    }
    ids
}

proof fn lemma_skip_best(logits: Seq<u32>, i: int, k: int, ids: Seq<usize>)
    requires
        0 <= i < logits.len() <= usize::MAX,
        0 <= k,
        are_best(logits, i, k, ids),
        is_finite(logits[i]) && k > 0 ==> ids.len() == k && value_order(logits[i]) <= value_order(
            logits[ids.last() as int],
        ),
    ensures
        are_best(logits, i + 1, k, ids),
{
    assert forall|x: int|
        0 <= x < i + 1 && is_finite(#[trigger] logits[x]) && !ids.contains(
            x as usize,
        ) implies ids.len() == k && (k > 0 ==> before(logits, ids.last() as int, x)) by {
        if x == i && k > 0 {
            assert(ids.last() == ids[ids.len() - 1]);
        }
    }
}

proof fn lemma_insert_best(
    logits: Seq<u32>,
    i: int,
    k: int,
    old_ids: Seq<usize>,
    base: Seq<usize>,
    j: int,
    ids: Seq<usize>,
)
    requires
        0 <= i < logits.len() <= usize::MAX,
        0 < k,
        are_best(logits, i, k, old_ids),
        is_finite(logits[i]),
        old_ids.len() == k ==> base == old_ids.drop_last() && value_order(logits[i]) > value_order(
            logits[old_ids.last() as int],
        ),
        old_ids.len() < k ==> base == old_ids,
        0 <= j <= base.len(),
        ids == base.insert(j, i as usize),
        forall|x: int| j <= x < base.len() ==> before(logits, i, #[trigger] base[x] as int),
        j > 0 ==> value_order(logits[base[j - 1] as int]) >= value_order(logits[i]),
    ensures
        are_best(logits, i + 1, k, ids),
{
    assert forall|x: int| 0 <= x < base.len() implies #[trigger] base[x] == old_ids[x] by {}
    assert(ids.len() == base.len() + 1);
    assert forall|x: int| 0 <= x < ids.len() implies (#[trigger] ids[x]) < i + 1 && is_finite(
        logits[ids[x] as int],
    ) by {
        if x < j {
            assert(ids[x] == base[x]);
        } else if x > j {
            assert(ids[x] == base[x - 1]);
        }
    }
    assert forall|x: int| 0 <= x < j implies before(logits, #[trigger] base[x] as int, i) by {
        if x < j - 1 {
            assert(before(logits, old_ids[x] as int, old_ids[j - 1] as int));
        }
    }
    assert forall|x: int, y: int| 0 <= x < y < ids.len() implies before(
        logits,
        #[trigger] ids[x] as int,
        #[trigger] ids[y] as int,
    ) by {
        let a = if x < j {
            base[x] as int
        } else if x == j {
            i
        } else {
            base[x - 1] as int
        };
        let b = if y < j {
            base[y] as int
        } else if y == j {
            i
        } else {
            base[y - 1] as int
        };
        assert(ids[x] == a && ids[y] == b);
        if x != j && y != j {
            let p = if x < j {
                x
            } else {
                x - 1
            };
            let q = if y < j {
                y
            } else {
                y - 1
            };
            assert(before(logits, old_ids[p] as int, old_ids[q] as int));
        }
    }
    assert forall|x: int|
        0 <= x < i + 1 && is_finite(#[trigger] logits[x]) && !ids.contains(
            x as usize,
        ) implies ids.len() == k && before(logits, ids.last() as int, x) by {
        assert(ids[j] == i as usize);
        assert(x < i);
        assert(ids.last() == ids[ids.len() - 1]);
        let worst = ids.last() as int;
        if old_ids.contains(x as usize) {
            let p = choose|p: int| 0 <= p < old_ids.len() && old_ids[p] == x as usize;
            if p < base.len() {
                if p < j {
                    assert(ids[p] == x as usize);
                } else {
                    assert(ids[p + 1] == x as usize);
                }
            }
            // The candidate that was dropped.
            assert(old_ids.len() == k && p == k - 1);
            if j == base.len() {
                assert(worst == i);
            } else {
                assert(worst == base[base.len() - 1]);
                assert(before(logits, old_ids[k - 2] as int, old_ids[k - 1] as int));
            }
        } else {
            assert(old_ids.len() == k);
            assert(before(logits, old_ids.last() as int, x));
            assert(old_ids.last() == old_ids[k - 1]);
            if j == base.len() {
                assert(worst == i);
            } else {
                assert(worst == base[base.len() - 1]);
                assert(before(logits, old_ids[k - 2] as int, old_ids[k - 1] as int));
            }
        }
    }
}

// ---- Decisions of nucleus sampling ----

/// What is done with logits before any arithmetic.
#[derive(Debug)]
pub enum SampleStart {
    /// The token is decided.
    Token(u32),
    /// Choose among these candidates, best first, with these cutoffs.
    Choose { ids: Vec<usize>, top_p: u32, min_p: u32 },
}

/// `a <= b` as numbers.
pub open spec fn le(a: u32, b: u32) -> bool {
    !is_nan(a) && !is_nan(b) && value_order(a) <= value_order(b)
}

fn bits_le(a: u32, b: u32) -> (r: bool)
    ensures
        r == le(a, b),
{
    !bits_nan(a) && !bits_nan(b) && order_key(a) <= order_key(b)
}

/// The cumulative cutoff; outside 0 (exclusive) to 1, or where it is no number, it is 1.
pub open spec fn clamped_top_p(top_p: u32) -> u32 {
    if gt(top_p, 0) && le(top_p, ONE) {
        top_p
    } else {
        ONE
    }
}

/// The relative cutoff; below 0 it is 0.
pub open spec fn clamped_min_p(min_p: u32) -> u32 {
    if gt(0, min_p) {
        0
    } else {
        min_p
    }
}

/// What sampling starts with: no logits give token 0, a temperature of 0 or less gives the argmax,
/// logits of which none is finite give token 0, and otherwise a choice has to be made among the
/// best candidates.
pub open spec fn is_sample_start(
    r: SampleStart,
    logits: Seq<u32>,
    temperature: u32,
    top_k: usize,
    top_p: u32,
    min_p: u32,
) -> bool {
    match r {
        SampleStart::Token(t) => {
            ||| logits.len() == 0 && t == 0
            ||| logits.len() > 0 && le(temperature, 0) && plain_argmax(logits, t)
            ||| logits.len() > 0 && !le(temperature, 0) && t == 0 && forall|i: int|
                0 <= i < logits.len() ==> !is_finite(#[trigger] logits[i])
        },
        SampleStart::Choose { ids, top_p: p, min_p: m } => {
            &&& logits.len() > 0
            &&& !le(temperature, 0)
            &&& ids@.len() > 0
            &&& are_best(
                logits,
                logits.len() as int,
                effective_top_k(logits.len(), top_k) as int,
                ids@,
            )
            &&& p == clamped_top_p(top_p)
            &&& m == clamped_min_p(min_p)
        },
    }
}

/// Starts sampling.
pub fn sample_start(logits: &[u32], temperature: u32, top_k: usize, top_p: u32, min_p: u32) -> (r:
    SampleStart)
    ensures
        is_sample_start(r, logits@, temperature, top_k, top_p, min_p),
{
    if logits.len() == 0 {
        return SampleStart::Token(0);
    }
    if bits_le(temperature, 0) {
        return SampleStart::Token(argmax(logits));
    }
    let ids: Vec<usize> = top_candidates(logits, top_k);
    if ids.len() == 0 {
        proof {
            assert forall|i: int| 0 <= i < logits@.len() implies !is_finite(
                #[trigger] logits@[i],
            ) by {
                assert(!ids@.contains(i as usize));
            }
        }
        return SampleStart::Token(0);
    }
    let p: u32 = if bits_gt(top_p, 0) && bits_le(top_p, ONE) {
        top_p
    } else {
        ONE
    };
    let m: u32 = if bits_gt(0, min_p) {
        0
    } else {
        min_p
    };
    SampleStart::Choose { ids, top_p: p, min_p: m }
}

/// The candidate at `i` is kept: it is the first, or its probability is not below the cutoff.
pub open spec fn kept(probs: Seq<u32>, cutoff: u32, i: int) -> bool {
    i == 0 || !gt(cutoff, probs[i])
}

/// `n` candidates stay: each is kept, none before the last reaches the cumulative cutoff, and the
/// next is not kept or the last reaches it.
pub open spec fn is_nucleus(probs: Seq<u32>, cutoff: u32, cumulative: Seq<u32>, top_p: u32, n: int) -> bool {
    &&& 0 <= n <= probs.len()
    &&& forall|i: int| 0 <= i < n ==> kept(probs, cutoff, i)
    &&& forall|i: int| 0 <= i < n - 1 ==> !le(top_p, #[trigger] cumulative[i])
    &&& n < probs.len() ==> (n > 0 && le(top_p, cumulative[n - 1])) || !kept(probs, cutoff, n)
}

/// `true` if the candidates can be drawn from: the sum of their weights is above 0 and finite.
/// Where it is not, the best candidate is the token.
pub fn weights_usable(sum: u32) -> (r: bool)
    ensures
        r == (gt(sum, 0) && is_finite(sum)),
{
    bits_gt(sum, 0) && bits_finite(sum)
}

/// Number of candidates that stay. `probs` are the normalised probabilities, best first,
/// `cumulative` their running sums.
pub fn nucleus_len(probs: &[u32], cutoff: u32, cumulative: &[u32], top_p: u32) -> (n: usize)
    requires
        probs@.len() == cumulative@.len(),
    ensures
        is_nucleus(probs@, cutoff, cumulative@, top_p, n as int),
        probs@.len() > 0 ==> n > 0,
{
    let mut n: usize = 0;
    while n < probs.len()
        invariant
            n <= probs@.len(),
            probs@.len() == cumulative@.len(),
            forall|i: int| 0 <= i < n ==> kept(probs@, cutoff, i),
            forall|i: int| 0 <= i < n ==> !le(top_p, #[trigger] cumulative@[i]),
        decreases probs@.len() - n,
    {
        if n > 0 && bits_gt(cutoff, probs[n]) {
            return n;
        }
        n += 1;
        if bits_le(top_p, cumulative[n - 1]) {
            return n;
        }
    }
    n
}

/// The candidate that a draw falls on: the first at which what is left of the draw is 0 or less,
/// or the last.
pub fn drawn_candidate(left: &[u32]) -> (i: usize)
    requires
        left@.len() > 0,
    ensures
        i < left@.len(),
        forall|j: int| 0 <= j < i ==> !le(#[trigger] left@[j], 0),
        le(left@[i as int], 0) || i == left@.len() - 1,
{
    let mut i: usize = 0;
    while i < left.len()
        invariant
            i <= left@.len(),
            forall|j: int| 0 <= j < i ==> !le(#[trigger] left@[j], 0),
        decreases left@.len() - i,
    {
        if bits_le(left[i], 0) {
            return i;
        }
        i += 1;
    }
    left.len() - 1
}

// ---- Log-probabilities ----

/// The highest finite logit, if there is one: the first of equal ones.
pub fn finite_max(logits: &[u32]) -> (r: Option<u32>)
    ensures
        match r {
            Some(m) => exists|i: int| is_first_max(logits@, i) && m == logits@[i],
            None => forall|i: int| 0 <= i < logits@.len() ==> !is_finite(#[trigger] logits@[i]),
        },
{
    let mut best: Option<usize> = None;
    let mut i: usize = 0;
    while i < logits.len()
        invariant
            i <= logits@.len(),
            match best {
                Some(b) => {
                    &&& b < i
                    &&& is_finite(logits@[b as int])
                    &&& forall|j: int|
                        0 <= j < i && is_finite(#[trigger] logits@[j]) ==> value_order(logits@[j])
                            < value_order(logits@[b as int]) || (value_order(logits@[j])
                            == value_order(logits@[b as int]) && b <= j)
                },
                None => forall|j: int| 0 <= j < i ==> !is_finite(#[trigger] logits@[j]),
            },
        decreases logits@.len() - i,
    {
        if bits_finite(logits[i]) {
            match best {
                Some(b) => {
                    if order_key(logits[i]) > order_key(logits[b]) {
                        best = Some(i);
                    }
                },
                None => {
                    best = Some(i);
                },
            }
        }
        i += 1;
    }
    match best {
        Some(b) => {
            assert(is_first_max(logits@, b as int));
            Some(logits[b])
        },
        None => None,
    }
}

/// The entry can be picked: it was not picked before, and it is a number above negative infinity.
pub open spec fn pickable(work: Seq<u32>, used: Seq<bool>, i: int) -> bool {
    0 <= i < work.len() && !used[i] && gt(work[i], NEG_INFINITY)
}

/// `b` is the first of the highest entries that can be picked, or 0 where none can.
pub open spec fn is_pick(work: Seq<u32>, used: Seq<bool>, b: int) -> bool {
    ||| {
        &&& pickable(work, used, b)
        &&& forall|j: int|
            #[trigger] pickable(work, used, j) ==> value_order(work[j]) < value_order(work[b]) || (
            value_order(work[j]) == value_order(work[b]) && b <= j)
    }
    ||| b == 0 && forall|j: int| !#[trigger] pickable(work, used, j)
}

/// The id is that of an entry that is picked next.
pub open spec fn picks(work: Seq<u32>, used: Seq<bool>, id: u32) -> bool {
    exists|b: int| 0 <= b < work.len() && #[trigger] is_pick(work, used, b) && id == b as u32
}

/// `ids` were picked one after the other, each marked as used.
pub open spec fn picked(work: Seq<u32>, ids: Seq<u32>) -> bool {
    forall|n: int|
        0 <= n < ids.len() ==> picks(work, used_after(work.len(), ids.take(n)), #[trigger] ids[n])
}

/// The entries that these ids have marked as used.
pub open spec fn used_after(n: nat, ids: Seq<u32>) -> Seq<bool> {
    Seq::new(n, |i: int| ids.contains(i as u32))
}

proof fn lemma_some_left(ids: Seq<u32>, n: nat) -> (x: int)
    requires
        ids.len() < n <= u32::MAX,
    ensures
        0 <= x < n,
        !ids.contains(x as u32),
    decreases n,
{
    let last = (n - 1) as u32;
    if !ids.contains(last) {
        n - 1
    } else {
        let at = choose|at: int| 0 <= at < ids.len() && ids[at] == last;
        let rest = ids.remove(at);
        let x = lemma_some_left(rest, (n - 1) as nat);
        if ids.contains(x as u32) {
            let y = choose|y: int| 0 <= y < ids.len() && ids[y] == x as u32;
            if y < at {
                assert(rest[y] == x as u32);
            } else {
                assert(rest[y - 1] == x as u32);
            }
        }
        x
    }
}

/// The entry that was picked at a step was not picked before, and nothing that was not is higher.
proof fn lemma_step(work: Seq<u32>, ids: Seq<u32>, n: int, other: int)
    requires
        picked(work, ids),
        ids.len() <= work.len() <= u32::MAX,
        forall|i: int| 0 <= i < work.len() ==> is_finite(#[trigger] work[i]),
        0 <= n < ids.len(),
    ensures
        ids[n] < work.len(),
        !ids.take(n).contains(ids[n]),
        0 <= other < work.len() && !ids.take(n).contains(other as u32) ==> value_order(work[other])
            <= value_order(work[ids[n] as int]),
{
    let used = used_after(work.len(), ids.take(n));
    assert(picks(work, used, ids[n]));
    let b = choose|b: int| 0 <= b < work.len() && #[trigger] is_pick(work, used, b) && ids[n] == b as u32;
    let x = lemma_some_left(ids.take(n), work.len());
    assert(is_finite(work[x]));
    assert(pickable(work, used, x));
    assert(pickable(work, used, b));
    if 0 <= other < work.len() && !ids.take(n).contains(other as u32) {
        assert(is_finite(work[other]));
        assert(pickable(work, used, other));
    }
}

/// The ids that were picked are distinct, their log-probabilities do not rise, and nothing that was
/// left out has a higher one than any of them. Each has the log-probability that a look-up of its
/// token gives.
pub proof fn law_top_ids(work: Seq<u32>, ids: Seq<u32>)
    requires
        picked(work, ids),
        ids.len() <= work.len() <= u32::MAX,
        forall|i: int| 0 <= i < work.len() ==> is_finite(#[trigger] work[i]),
    ensures
        ids.no_duplicates(),
        forall|i: int|
            0 <= i < ids.len() ==> #[trigger] ids[i] < work.len() && logprob(work, ids[i])
                == work[ids[i] as int],
        forall|i: int, j: int|
            0 <= i <= j < ids.len() ==> value_order(work[#[trigger] ids[j] as int]) <= value_order(
                work[#[trigger] ids[i] as int],
            ),
        forall|i: int, x: int|
            0 <= i < ids.len() && 0 <= x < work.len() && !ids.contains(x as u32) ==> value_order(
                #[trigger] work[x],
            ) <= value_order(work[#[trigger] ids[i] as int]),
{
    assert forall|i: int| 0 <= i < ids.len() implies #[trigger] ids[i] < work.len() && logprob(
        work,
        ids[i],
    ) == work[ids[i] as int] by {
        lemma_step(work, ids, i, 0);
        assert(is_finite(work[ids[i] as int]));
    }
    assert forall|i: int, j: int| 0 <= i < j < ids.len() implies ids[i] != ids[j] by {
        lemma_step(work, ids, j, 0);
        assert(ids.take(j)[i] == ids[i]);
    }
    assert forall|i: int, j: int| 0 <= i <= j < ids.len() implies value_order(
        work[#[trigger] ids[j] as int],
    ) <= value_order(work[#[trigger] ids[i] as int]) by {
        let other = ids[j] as int;
        if ids.take(i).contains(ids[j]) {
            let y = choose|y: int| 0 <= y < i && ids.take(i)[y] == ids[j];
            assert(ids[y] == ids[j]);
        }
        lemma_step(work, ids, i, other);
    }
    assert forall|i: int, x: int|
        0 <= i < ids.len() && 0 <= x < work.len() && !ids.contains(x as u32) implies value_order(
        #[trigger] work[x],
    ) <= value_order(work[#[trigger] ids[i] as int]) by {
        if ids.take(i).contains(x as u32) {
            let y = choose|y: int| 0 <= y < i && ids.take(i)[y] == x as u32;
            assert(ids[y] == x as u32);
        }
        lemma_step(work, ids, i, x);
    }
}

fn pick(work: &[u32], used: &Vec<bool>) -> (b: usize)
    requires
        work@.len() > 0,
        used@.len() == work@.len(),
    ensures
        b < work@.len(),
        is_pick(work@, used@, b as int),
{
    let mut best: Option<usize> = None;
    let mut i: usize = 0;
    while i < work.len()
        invariant
            i <= work@.len(),
            used@.len() == work@.len(),
            match best {
                Some(b) => {
                    &&& b < i
                    &&& pickable(work@, used@, b as int)
                    &&& forall|j: int|
                        j < i && #[trigger] pickable(work@, used@, j) ==> value_order(work@[j])
                            < value_order(work@[b as int]) || (value_order(work@[j])
                            == value_order(work@[b as int]) && b <= j)
                },
                None => forall|j: int| j < i ==> !#[trigger] pickable(work@, used@, j),
            },
        decreases work@.len() - i,
    {
        if !used[i] && bits_gt(work[i], NEG_INFINITY) {
            match best {
                Some(b) => {
                    if order_key(work[i]) > order_key(work[b]) {
                        best = Some(i);
                    }
                },
                None => {
                    best = Some(i);
                },
            }
        }
        i += 1;
    }
    match best {
        Some(b) => b,
        None => 0,
    }
}

/// The ids of the `k` highest log-probabilities, best first.
pub fn top_ids(work: &[u32], k: usize) -> (r: Vec<u32>)
    requires
        work@.len() <= u32::MAX,
    ensures
        r@.len() == if k < work@.len() {
            k as nat
        } else {
            work@.len()
        },
        picked(work@, r@),
{
    let n: usize = if k < work.len() {
        k
    } else {
        work.len()
    };
    let mut used: Vec<bool> = Vec::new();
    let mut i: usize = 0;
    while i < work.len()
        invariant
            i <= work@.len(),
            used@.len() == i,
            forall|j: int| 0 <= j < i ==> !#[trigger] used@[j],
        decreases work@.len() - i,
    {
        used.push(false);
        i += 1;
    }
    let mut ids: Vec<u32> = Vec::new();
    assert(used@ =~= used_after(work@.len(), ids@));
    while ids.len() < n
        invariant
            n <= work@.len() <= u32::MAX,
            ids@.len() <= n,
            used@ == used_after(work@.len(), ids@),
            picked(work@, ids@),
        decreases n - ids@.len(),
    {
        let ghost before = ids@;
        let b: usize = pick(work, &used);
        used.set(b, true);
        ids.push(b as u32);
        proof {
            assert(ids@.take(before.len() as int) =~= before);
            assert forall|m: int| 0 <= m < ids@.len() implies picks(
                work@,
                used_after(work@.len(), ids@.take(m)),
                #[trigger] ids@[m],
            ) by {
                if m < before.len() {
                    assert(ids@.take(m) =~= before.take(m));
                    assert(before[m] == ids@[m]);
                } else {
                    assert(is_pick(work@, used_after(work@.len(), before), b as int));
                }
            }
            assert forall|x: int| 0 <= x < work@.len() implies used@[x] == used_after(
                work@.len(),
                ids@,
            )[x] by {
                if x == b {
                    assert(ids@[before.len() as int] == b as u32);
                } else if before.contains(x as u32) {
                    let y = choose|y: int| 0 <= y < before.len() && before[y] == x as u32;
                    assert(ids@[y] == x as u32);
                } else if ids@.contains(x as u32) {
                    let y = choose|y: int| 0 <= y < ids@.len() && ids@[y] == x as u32;
                    if y < before.len() {
                        assert(before[y] == x as u32);
                    }
                }
            }
            assert(used@ =~= used_after(work@.len(), ids@));
        }
    }
    ids
}

/// The log-probability of a token, or 0 for one that does not exist or has none.
pub open spec fn logprob(work: Seq<u32>, token: u32) -> u32 {
    if token < work.len() && is_finite(work[token as int]) {
        work[token as int]
    } else {
        0
    }
}

/// The log-probability of a token, or 0 for one that does not exist or has none.
pub fn logprob_of(work: &[u32], token: u32) -> (r: u32)
    ensures
        r == logprob(work@, token),
{
    if (token as usize) < work.len() && bits_finite(work[token as usize]) {
        work[token as usize]
    } else {
        0
    }
}

// ---- Laws of sampling ----

/// The places of finite logits.
pub open spec fn finite_places(logits: Seq<u32>) -> Set<int> {
    vstd::set_lib::set_int_range(0, logits.len() as int).filter(
        |i: int| (logits[i] / 0x80_0000u32) % 256 != 255,
    )
}

proof fn lemma_finite_exponent(b: u32)
    ensures
        is_finite(b) <==> (b / 0x80_0000u32) % 256 != 255,
{
    if b >= 0x8000_0000u32 {
        assert((b / 0x80_0000u32) % 256 != 255 <==> b < 0xFF80_0000u32) by (bit_vector)
            requires
                b >= 0x8000_0000u32,
        ;
    } else {
        assert((b / 0x80_0000u32) % 256 != 255 <==> b < 0x7F80_0000u32) by (bit_vector)
            requires
                b < 0x8000_0000u32,
        ;
    }
}

proof fn lemma_best_count(logits: Seq<u32>, k: int, ids: Seq<usize>)
    requires
        logits.len() <= usize::MAX,
        are_best(logits, logits.len() as int, k, ids),
    ensures
        finite_places(logits).finite(),
        finite_places(logits).len() <= logits.len(),
        ids.no_duplicates(),
        ids.len() == if k < finite_places(logits).len() {
            k
        } else {
            finite_places(logits).len() as int
        },
{
    let all = vstd::set_lib::set_int_range(0, logits.len() as int);
    let places = finite_places(logits);
    vstd::set_lib::lemma_int_range(0, logits.len() as int);
    vstd::set_lib::lemma_len_subset(places, all);
    let at = ids.map_values(|i: usize| i as int);
    assert forall|i: int| 0 <= i < logits.len() implies (places.contains(i) <==> is_finite(
        #[trigger] logits[i],
    )) by {
        lemma_finite_exponent(logits[i]);
    }
    assert forall|i: int, j: int| 0 <= i < j < ids.len() implies ids[i] != ids[j] by {
        assert(before(logits, ids[i] as int, ids[j] as int));
    }
    assert(ids.no_duplicates());
    assert(at.no_duplicates());
    at.unique_seq_to_set();
    let chosen = at.to_set();
    assert forall|x: int| chosen.contains(x) implies places.contains(x) by {
        let i = choose|i: int| 0 <= i < at.len() && at[i] == x;
        assert(ids[i] == x);
        assert(is_finite(logits[x]));
    }
    vstd::set_lib::lemma_len_subset(chosen, places);
    if ids.len() < k {
        assert forall|x: int| places.contains(x) implies chosen.contains(x) by {
            assert(is_finite(logits[x]));
            assert(ids.contains(x as usize));
            let i = choose|i: int| 0 <= i < ids.len() && ids[i] == x as usize;
            assert(at[i] == x);
        }
        assert(chosen =~= places);
    }
}

/// There are as many candidates as `top_k` asks for, or as there are finite logits where those are
/// fewer. 0 asks for all, and nothing asks for more than 1024 but 0.
pub proof fn law_candidate_count(logits: Seq<u32>, top_k: usize, ids: Seq<usize>)
    requires
        logits.len() <= usize::MAX,
        are_best(
            logits,
            logits.len() as int,
            effective_top_k(logits.len(), top_k) as int,
            ids,
        ),
    ensures
        ids.no_duplicates(),
        top_k == 0 ==> ids.len() == finite_places(logits).len(),
        1 <= top_k <= 1024 ==> ids.len() == if top_k < finite_places(logits).len() {
            top_k as nat
        } else {
            finite_places(logits).len()
        },
        top_k > 1024 ==> ids.len() == if 1024 < finite_places(logits).len() {
            1024nat
        } else {
            finite_places(logits).len()
        },
{
    lemma_best_count(logits, effective_top_k(logits.len(), top_k) as int, ids);
}

/// The number that a pattern stands for, up to a factor that is the same for all: patterns with
/// the sign set stand for the negated numbers.
pub open spec fn signed(b: u32) -> int {
    if b < 0x8000_0000 {
        b as int
    } else {
        0x8000_0000 - b
    }
}

/// Every candidate is at least as high as every candidate behind it and as every finite logit that
/// is no candidate; of equal ones the one further left comes first. With `top_k` of 1 the
/// candidate is the argmax, and with any other it comes first.
pub proof fn law_candidates_are_highest(
    logits: Seq<u32>,
    top_k: usize,
    ids: Seq<usize>,
    greedy: u32,
)
    requires
        logits.len() <= u32::MAX,
        are_best(
            logits,
            logits.len() as int,
            effective_top_k(logits.len(), top_k) as int,
            ids,
        ),
        plain_argmax(logits, greedy),
    ensures
        forall|i: int, j: int|
            0 <= i < j < ids.len() ==> signed(logits[#[trigger] ids[i] as int]) > signed(
                logits[#[trigger] ids[j] as int],
            ) || (signed(logits[ids[i] as int]) == signed(logits[ids[j] as int]) && ids[i]
                < ids[j]),
        forall|i: int, x: int|
            0 <= i < ids.len() && finite_places(logits).contains(x) && !ids.contains(x as usize)
                ==> signed(logits[#[trigger] ids[i] as int]) > signed(#[trigger] logits[x]) || (
            signed(logits[ids[i] as int]) == signed(logits[x]) && ids[i] < x),
        ids.len() > 0 ==> ids[0] == greedy,
        ids.len() == 0 ==> greedy == 0,
        finite_places(logits).len() > 0 ==> ids.len() > 0,
{
    let k = effective_top_k(logits.len(), top_k) as int;
    lemma_best_count(logits, k, ids);
    assert forall|b: u32| value_order(b) == #[trigger] signed(b) by {}
    assert forall|x: int| 0 <= x < logits.len() implies (finite_places(logits).contains(x)
        <==> is_finite(#[trigger] logits[x])) by {
        lemma_finite_exponent(logits[x]);
    }
    assert forall|i: int, j: int| 0 <= i < j < ids.len() implies signed(
        logits[#[trigger] ids[i] as int],
    ) > signed(logits[#[trigger] ids[j] as int]) || (signed(logits[ids[i] as int]) == signed(
        logits[ids[j] as int],
    ) && ids[i] < ids[j]) by {
        assert(before(logits, ids[i] as int, ids[j] as int));
    }
    assert forall|i: int, x: int|
        0 <= i < ids.len() && finite_places(logits).contains(x) && !ids.contains(
            x as usize,
        ) implies signed(logits[#[trigger] ids[i] as int]) > signed(#[trigger] logits[x]) || (signed(
        logits[ids[i] as int],
    ) == signed(logits[x]) && ids[i] < x) by {
        assert(is_finite(logits[x]));
        assert(before(logits, ids.last() as int, x));
        if i < ids.len() - 1 {
            assert(before(logits, ids[i] as int, ids[ids.len() - 1] as int));
        }
    }
    if ids.len() > 0 {
        let first = ids[0] as int;
        assert(is_finite(logits[first]));
        let g = choose|g: int| is_first_max(logits, g) && greedy == g as u32;
        assert(is_first_max(logits, g));
        if g != first {
            if ids.contains(g as usize) {
                let j = choose|j: int| 0 <= j < ids.len() && ids[j] == g as usize;
                assert(before(logits, ids[0] as int, ids[j] as int));
            } else {
                assert(finite_places(logits).contains(g));
            }
        }
    } else {
        if exists|g: int| is_first_max(logits, g) && greedy == g as u32 {
            let g = choose|g: int| is_first_max(logits, g) && greedy == g as u32;
            assert(finite_places(logits).contains(g));
            assert(finite_places(logits).len() > 0) by {
                vstd::set_lib::lemma_len_subset(
                    Set::<int>::empty().insert(g),
                    finite_places(logits),
                );
            }
        }
    }
}

/// Sampling makes a choice exactly where the temperature is above 0 or no number, and some logit is
/// finite. Otherwise the token is decided: the highest logit where the temperature is 0 or less,
/// and 0 where no logit is finite.
pub proof fn law_when_a_choice_is_made(
    r: SampleStart,
    logits: Seq<u32>,
    temperature: u32,
    top_k: usize,
    top_p: u32,
    min_p: u32,
)
    requires
        is_sample_start(r, logits, temperature, top_k, top_p, min_p),
    ensures
        ({
            let nan = 0x7F80_0000 < temperature < 0x8000_0000 || 0xFF80_0000 < temperature;
            let above = nan || signed(temperature) > 0;
            let finite = exists|i: int|
                0 <= i < logits.len() && (#[trigger] logits[i] / 0x80_0000u32) % 256 != 255;
            &&& r is Choose <==> above && finite
            &&& !finite ==> (r matches SampleStart::Token(t) && t == 0)
            &&& !above && finite ==> (r matches SampleStart::Token(t) && plain_argmax(
                logits,
                t,
            ))
        }),
{
    assert forall|i: int| 0 <= i < logits.len() implies (is_finite(logits[i]) <==> (
    #[trigger] logits[i] / 0x80_0000u32) % 256 != 255) by {
        lemma_finite_exponent(logits[i]);
    }
    match r {
        SampleStart::Choose { ids, top_p: p, min_p: m } => {
            let i = ids@[0] as int;
            assert(is_finite(logits[i]));
            assert((logits[i] / 0x80_0000u32) % 256 != 255);
        },
        SampleStart::Token(t) => {},
    }
}

/// The cutoffs that a choice goes by: a cumulative one above 0 and up to 1 is taken as it is, and
/// any other as 1; a relative one below 0 is taken as 0, and any other as it is.
pub proof fn law_cutoffs(
    r: SampleStart,
    logits: Seq<u32>,
    temperature: u32,
    top_k: usize,
    top_p: u32,
    min_p: u32,
)
    requires
        is_sample_start(r, logits, temperature, top_k, top_p, min_p),
    ensures
        r matches SampleStart::Choose { ids, top_p: p, min_p: m } ==> {
            &&& 0 < top_p <= 0x3F80_0000 ==> p == top_p
            &&& !(0 < top_p <= 0x3F80_0000) ==> p == 0x3F80_0000
            &&& 0x8000_0000 < min_p <= 0xFF80_0000 ==> m == 0
            &&& !(0x8000_0000 < min_p <= 0xFF80_0000) ==> m == min_p
        },
{
}

/// Of patterns below that of infinity, a higher one stands for a higher number. So of the
/// candidates that stay, each but the first has at least the relative cutoff, and the running sum
/// is below the cumulative one up to the last. One candidate more would not have the relative
/// cutoff, or stand behind a running sum that has the cumulative one.
pub proof fn law_nucleus(
    probs: Seq<u32>,
    cutoff: u32,
    cumulative: Seq<u32>,
    top_p: u32,
    n: int,
)
    requires
        is_nucleus(probs, cutoff, cumulative, top_p, n),
        probs.len() == cumulative.len(),
        cutoff < 0x7F80_0000,
        top_p < 0x7F80_0000,
        forall|i: int| 0 <= i < probs.len() ==> #[trigger] probs[i] < 0x7F80_0000,
        forall|i: int| 0 <= i < probs.len() ==> #[trigger] cumulative[i] < 0x7F80_0000,
    ensures
        0 <= n <= probs.len(),
        probs.len() > 0 ==> n > 0,
        forall|i: int| 0 < i < n ==> #[trigger] probs[i] >= cutoff,
        forall|i: int| 0 <= i < n - 1 ==> #[trigger] cumulative[i] < top_p,
        n < probs.len() ==> cumulative[n - 1] >= top_p || probs[n] < cutoff,
{
    assert forall|i: int| 0 < i < n implies #[trigger] probs[i] >= cutoff by {
        assert(kept(probs, cutoff, i));
    }
}

/// The candidates that stay are settled, and a higher cumulative cutoff or a lower relative one
/// never takes one away.
pub proof fn law_nucleus_grows(
    probs: Seq<u32>,
    cutoff: u32,
    cumulative: Seq<u32>,
    top_p: u32,
    n: int,
    lower_cutoff: u32,
    higher_p: u32,
    m: int,
)
    requires
        is_nucleus(probs, cutoff, cumulative, top_p, n),
        is_nucleus(probs, lower_cutoff, cumulative, higher_p, m),
        probs.len() == cumulative.len(),
        lower_cutoff <= cutoff < 0x7F80_0000,
        top_p <= higher_p < 0x7F80_0000,
        forall|i: int| 0 <= i < probs.len() ==> #[trigger] probs[i] < 0x7F80_0000,
        forall|i: int| 0 <= i < probs.len() ==> #[trigger] cumulative[i] < 0x7F80_0000,
    ensures
        n <= m,
        lower_cutoff == cutoff && higher_p == top_p ==> n == m,
{
    if m < n {
        assert(kept(probs, cutoff, m));
        if m > 0 {
            assert(cumulative[m - 1] < 0x7F80_0000);
            assert(probs[m] < 0x7F80_0000);
        }
        assert(!kept(probs, lower_cutoff, m) || (m > 0 && le(higher_p, cumulative[m - 1])));
    }
    if n < m {
        assert(kept(probs, lower_cutoff, n));
        if n > 0 {
            assert(cumulative[n - 1] < 0x7F80_0000);
        }
    }
}

/// The argmax is the place of a finite logit that no finite logit exceeds, and of equal ones the
/// first; without a finite logit it is 0. Leaving a token out changes it only where the token was
/// the argmax, and then to a place that no finite logit but the token's exceeds.
pub proof fn law_argmax(logits: Seq<u32>, greedy: u32, excluded: u32, other: u32, x: int)
    requires
        logits.len() <= u32::MAX,
        plain_argmax(logits, greedy),
        argmax_of(logits, excluded, other),
        0 <= x < logits.len(),
        (logits[x] / 0x80_0000u32) % 256 != 255,
    ensures
        greedy < logits.len(),
        (logits[greedy as int] / 0x80_0000u32) % 256 != 255,
        signed(logits[greedy as int]) > signed(logits[x]) || (signed(logits[greedy as int])
            == signed(logits[x]) && greedy <= x),
        greedy != excluded ==> other == greedy,
        x != excluded ==> other != excluded && other < logits.len() && (signed(
            logits[other as int],
        ) > signed(logits[x]) || (signed(logits[other as int]) == signed(logits[x]) && other <= x)),
{
    assert forall|b: u32| value_order(b) == #[trigger] signed(b) by {}
    lemma_finite_exponent(logits[x]);
    assert(is_finite(logits[x]));
    let g = choose|g: int| is_first_max(logits, g) && greedy == g as u32;
    assert(is_first_max(logits, g));
    lemma_finite_exponent(logits[g]);
    if x != excluded {
        assert(allowed(logits, excluded, x));
        let o = choose|o: int| is_argmax(logits, excluded, o) && other == o as u32;
        assert(is_argmax(logits, excluded, o));
    }
    if greedy != excluded {
        assert(allowed(logits, excluded, g));
        let o = choose|o: int| is_argmax(logits, excluded, o) && other == o as u32;
        assert(is_argmax(logits, excluded, o));
        assert(is_finite(logits[o]));
        assert(o == g);
    }
}

/// A number is at most another exactly where it is not above it and both are numbers, and the
/// patterns of 0 and negative 0 are equal.
pub proof fn law_le(a: u32, b: u32)
    requires
        a <= 0x7F80_0000 || 0x8000_0000 <= a <= 0xFF80_0000,
        b <= 0x7F80_0000 || 0x8000_0000 <= b <= 0xFF80_0000,
    ensures
        le(a, b) <==> signed(a) <= signed(b),
        gt(a, b) <==> signed(a) > signed(b),
        le(0, 0x8000_0000) && le(0x8000_0000, 0),
        !le(0x7FC0_0000, a) && !le(a, 0x7FC0_0000) && !gt(0x7FC0_0000, a) && !gt(a, 0x7FC0_0000),
{
}

} // verus!
