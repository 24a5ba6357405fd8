//! Lookup tables of a BPE vocabulary: token bytes to ids, and token pairs to merge ranks.

use std::collections::HashMap;
use vstd::prelude::*;

use crate::slices::bytes_eq;

verus! {

broadcast use vstd::std_specs::hash::group_hash_axioms;

/// The bytes of each token.
pub open spec fn token_bytes(tokens: Seq<Vec<u8>>) -> Seq<Seq<u8>> {
    tokens.map_values(|t: Vec<u8>| t@)
}

/// The last position at which these bytes stand in the token list.
pub open spec fn last_index(tokens: Seq<Seq<u8>>, bytes: Seq<u8>) -> Option<int>
    decreases tokens.len(),
{
    if tokens.len() == 0 {
        None
    } else if tokens.last() == bytes {
        Some(tokens.len() - 1)
    } else {
        last_index(tokens.drop_last(), bytes)
    }
}

/// The id of a token by its bytes; the last of several equal ones.
pub open spec fn token_id(tokens: Seq<Seq<u8>>, bytes: Seq<u8>) -> Option<u32> {
    match last_index(tokens, bytes) {
        Some(i) => Some(i as u32),
        None => None,
    }
}

/// What `last_index` finds is there, and nothing equal comes after it.
pub proof fn lemma_last_index(tokens: Seq<Seq<u8>>, bytes: Seq<u8>)
    ensures
        match last_index(tokens, bytes) {
            Some(i) => {
                &&& 0 <= i < tokens.len()
                &&& tokens[i] == bytes
                &&& forall|j: int| i < j < tokens.len() ==> #[trigger] tokens[j] != bytes
            },
            None => forall|j: int| 0 <= j < tokens.len() ==> #[trigger] tokens[j] != bytes,
        },
    decreases tokens.len(),
{
    if tokens.len() > 0 && tokens.last() != bytes {
        lemma_last_index(tokens.drop_last(), bytes);
        assert forall|j: int| 0 <= j < tokens.len() - 1 implies #[trigger] tokens[j]
            == tokens.drop_last()[j] by {}
    }
}

proof fn lemma_last_index_is(tokens: Seq<Seq<u8>>, bytes: Seq<u8>, i: int)
    requires
        0 <= i < tokens.len(),
        tokens[i] == bytes,
        forall|j: int| i < j < tokens.len() ==> #[trigger] tokens[j] != bytes,
    ensures
        last_index(tokens, bytes) == Some(i),
    decreases tokens.len(),
{
    if i < tokens.len() - 1 {
        assert(tokens.last() == tokens[tokens.len() - 1]);
        lemma_last_index_is(tokens.drop_last(), bytes, i);
    }
}

/// Number of buckets of a token index.
pub const BUCKETS: usize = 65_521;

/// The bucket of a byte string.
pub open spec fn bucket_of(bytes: Seq<u8>) -> int
    decreases bytes.len(),
{
    if bytes.len() == 0 {
        7
    } else {
        (bucket_of(bytes.drop_last()) * 31 + bytes.last()) % 65_521
    }
}

fn bucket(bytes: &[u8]) -> (r: usize)
    ensures
        r == bucket_of(bytes@),
        r < BUCKETS,
{
    let mut h: usize = 7;
    let mut i: usize = 0;
    while i < bytes.len()
        invariant
            i <= bytes@.len(),
            h == bucket_of(bytes@.take(i as int)),
            h < 65_521,
        decreases bytes@.len() - i,
    {
        h = (h * 31 + bytes[i] as usize) % 65_521;
        proof {
            let next = bytes@.take(i + 1);
            assert(next.drop_last() =~= bytes@.take(i as int));
        }
        i += 1;
    }
    assert(bytes@.take(i as int) =~= bytes@);
    h
}

/// Position `i` stands in this bucket.
spec fn holds(bucket: Vec<usize>, i: int) -> bool {
    exists|k: int| 0 <= k < bucket@.len() && #[trigger] bucket@[k] == i
}

spec fn all_present(buckets: Seq<Vec<usize>>, tokens: Seq<Seq<u8>>, n: int) -> bool {
    forall|i: int| 0 <= i < n ==> holds(buckets[bucket_of(#[trigger] tokens[i])], i)
}

spec fn all_below(buckets: Seq<Vec<usize>>, n: int) -> bool {
    forall|b: int, k: int|
        0 <= b < buckets.len() && 0 <= k < buckets[b]@.len() ==> #[trigger] buckets[b]@[k] < n
}

spec fn ascending(buckets: Seq<Vec<usize>>) -> bool {
    forall|b: int, k: int, l: int|
        0 <= b < buckets.len() && 0 <= k < l < buckets[b]@.len() ==> #[trigger] buckets[b]@[k]
            < #[trigger] buckets[b]@[l]
}

/// Finds tokens by their bytes: the positions of the tokens, sorted into buckets.
#[derive(Debug, Clone)]
pub struct TokenIndex {
    buckets: Vec<Vec<usize>>,
}

impl TokenIndex {
    /// Every one of the first `n` tokens stands in its bucket, in ascending order.
    pub closed spec fn covers(self, tokens: Seq<Seq<u8>>, n: int) -> bool {
        &&& self.buckets@.len() == BUCKETS
        &&& all_present(self.buckets@, tokens, n)
        &&& all_below(self.buckets@, n)
        &&& ascending(self.buckets@)
    }

    /// The index of a token list.
    pub open spec fn indexes(self, tokens: Seq<Seq<u8>>) -> bool {
        self.covers(tokens, tokens.len() as int)
    }

    /// Indexes a token list.
    pub fn build(tokens: &Vec<Vec<u8>>) -> (r: Self)
        ensures
            r.indexes(token_bytes(tokens@)),
    {
        let ghost all = token_bytes(tokens@);
        let mut buckets: Vec<Vec<usize>> = Vec::new();
        let mut b: usize = 0;
        while b < BUCKETS
            invariant
                b <= BUCKETS,
                buckets@.len() == b,
                forall|i: int| 0 <= i < b ==> (#[trigger] buckets@[i])@.len() == 0,
            decreases BUCKETS - b,
        {
            buckets.push(Vec::new());
            b += 1;
        }
        let mut index = TokenIndex { buckets };
        let mut i: usize = 0;
        while i < tokens.len()
            invariant
                i <= tokens@.len(),
                all == token_bytes(tokens@),
                index.covers(all, i as int),
            decreases tokens@.len() - i,
        {
            let h: usize = bucket(tokens[i].as_slice());
            let ghost before = index.buckets@;
            index.buckets[h].push(i);
            proof {
                let after = index.buckets@;
                assert(all[i as int] == tokens@[i as int]@);
                assert(after[h as int]@ == before[h as int]@.push(i));
                assert(after =~= before.update(h as int, after[h as int]));
                assert(all_below(after, i + 1)) by {
                    assert forall|b: int, k: int|
                        0 <= b < after.len() && 0 <= k
                            < after[b]@.len() implies #[trigger] after[b]@[k] < i + 1 by {
                        if b != h || k < before[b]@.len() {
                            assert(after[b]@[k] == before[b]@[k]);
                        }
                    }
                }
                assert(ascending(after)) by {
                    assert forall|b: int, k: int, l: int|
                        0 <= b < after.len() && 0 <= k < l
                            < after[b]@.len() implies #[trigger] after[b]@[k]
                        < #[trigger] after[b]@[l] by {
                        assert(after[b]@[k] == before[b]@[k]);
                        if b != h || l < before[b]@.len() {
                            assert(after[b]@[l] == before[b]@[l]);
                        }
                    }
                }
                assert(all_present(after, all, i + 1)) by {
                    assert forall|j: int| 0 <= j < i + 1 implies holds(
                        after[bucket_of(#[trigger] all[j])],
                        j,
                    ) by {
                        lemma_bucket_range(all[j]);
                        let b = bucket_of(all[j]);
                        if j < i {
                            assert(holds(before[b], j));
                            let k = choose|k: int|
                                0 <= k < before[b]@.len() && #[trigger] before[b]@[k] == j;
                            assert(after[b]@[k] == j);
                        } else {
                            assert(after[b]@[before[b]@.len() as int] == i);
                        }
                    }
                }
            }
            i += 1;
        }
        index
    }

    /// The id of the token with these bytes.
    pub fn find(&self, tokens: &Vec<Vec<u8>>, bytes: &[u8]) -> (r: Option<u32>)
        requires
            self.indexes(token_bytes(tokens@)),
        ensures
            r == token_id(token_bytes(tokens@), bytes@),
    {
        let ghost all = token_bytes(tokens@);
        let h: usize = bucket(bytes);
        let mut k: usize = self.buckets[h].len();
        while k > 0
            invariant
                h < BUCKETS,
                h == bucket_of(bytes@),
                all == token_bytes(tokens@),
                self.indexes(all),
                k <= self.buckets@[h as int]@.len(),
                forall|l: int|
                    k <= l < self.buckets@[h as int]@.len()
                        ==> all[#[trigger] self.buckets@[h as int]@[l] as int] != bytes@,
            decreases k,
        {
            let id: usize = self.buckets[h][k - 1];
            assert(id < all.len());
            if bytes_eq(tokens[id].as_slice(), bytes) {
                proof {
                    assert(all[id as int] == tokens@[id as int]@);
                    assert forall|j: int| id < j < all.len() implies #[trigger] all[j]
                        != bytes@ by {
                        if all[j] == bytes@ {
                            assert(holds(self.buckets@[h as int], j));
                            let l = choose|l: int|
                                0 <= l < self.buckets@[h as int]@.len()
                                    && #[trigger] self.buckets@[h as int]@[l] == j;
                            if l < k - 1 {
                                assert(self.buckets@[h as int]@[l]
                                    < self.buckets@[h as int]@[k - 1]);
                            }
                        }
                    }
                    lemma_last_index_is(all, bytes@, id as int);
                }
                return Some(id as u32);
            }
            k -= 1;
            assert(all[id as int] == tokens@[id as int]@);
        }
        proof {
            lemma_last_index(all, bytes@);
            if last_index(all, bytes@) is Some {
                let j = last_index(all, bytes@).unwrap();
                assert(all[j] == bytes@);
                assert(holds(self.buckets@[h as int], j));
            }
        }
        None
    }
}

proof fn lemma_bucket_range(bytes: Seq<u8>)
    ensures
        0 <= bucket_of(bytes) < BUCKETS,
    decreases bytes.len(),
{
    if bytes.len() > 0 {
        lemma_bucket_range(bytes.drop_last());
    }
}

/// The key under which a pair is kept.
pub open spec fn pair_key(left: u32, right: u32) -> u64 {
    (left * 0x1_0000_0000 + right) as u64
}

/// Ranks of token pairs that can be merged.
#[derive(Debug, Clone)]
pub struct MergeTable {
    ranks: HashMap<u64, u32>,
}

impl View for MergeTable {
    type V = Map<(u32, u32), u32>;

    closed spec fn view(&self) -> Map<(u32, u32), u32> {
        Map::new(
            |p: (u32, u32)| self.ranks@.contains_key(pair_key(p.0, p.1)),
            |p: (u32, u32)| self.ranks@[pair_key(p.0, p.1)],
        )
    }
}

impl MergeTable {
    /// No pair can be merged.
    pub fn new() -> (t: Self)
        ensures
            t@ == Map::<(u32, u32), u32>::empty(),
    {
        let t = MergeTable { ranks: HashMap::new() };
        assert(t@ =~= Map::<(u32, u32), u32>::empty());
        t
    }

    /// Gives a pair a rank, in place of the one it had.
    pub fn insert(&mut self, left: u32, right: u32, rank: u32)
        ensures
            final(self)@ == old(self)@.insert((left, right), rank),
    {
        let key: u64 = left as u64 * 0x1_0000_0000 + right as u64;
        self.ranks.insert(key, rank);
        assert(self@ =~= old(self)@.insert((left, right), rank));
    }

    /// The rank of a pair.
    pub fn get(&self, left: u32, right: u32) -> (r: Option<u32>)
        ensures
            match r {
                Some(rank) => self@.contains_key((left, right)) && self@[(left, right)] == rank,
                None => !self@.contains_key((left, right)),
            },
    {
        let key: u64 = left as u64 * 0x1_0000_0000 + right as u64;
        match self.ranks.get(&key) {
            Some(rank) => Some(*rank),
            None => None,
        }
    }

    /// `true` if no pair can be merged.
    pub fn is_empty(&self) -> (r: bool)
        ensures
            r == (self@ == Map::<(u32, u32), u32>::empty()),
    {
        let r: bool = self.ranks.is_empty();
        proof {
            if r {
                assert(self@ =~= Map::<(u32, u32), u32>::empty());
            } else {
                let key = choose|key: u64| self.ranks@.contains_key(key);
                if self.ranks@.contains_key(key) {
                    let left = (key / 0x1_0000_0000) as u32;
                    let right = (key % 0x1_0000_0000) as u32;
                    assert(pair_key(left, right) == key);
                    assert(self@.contains_key((left, right)));
                }
            }
        }
        r
    }
}

} // verus!
