//! Byte-pair tokenizer over a model vocabulary, with a byte-level fallback.

use std::sync::Arc;
use vstd::prelude::*;
use vstd::string::{StringExecFns, StringSliceAdditionalSpecFns};
use vstd::utf8::{
    decode_utf8, encode_scalar, encode_utf8, encode_utf8_first_scalar, encode_utf8_valid_utf8,
    is_ascii_chars_encode_utf8, is_char_boundary,
    is_char_boundary_start_end_of_seq, length_of_first_scalar, pop_first_scalar, valid_utf8,
};

use crate::gguf::{gguf_u32, GgufFile};
use crate::le::put_bytes;
use crate::slices::copy_bytes;
use crate::text::{dec, law_encode_concat, law_encoded_prefix, push_dec};
use crate::tokenizer_data::{
    joined, law_pieces_partition, lead_len, lemma_next_boundary, match_special_at, next_utf8_char,
    opens_with, pieces, pre_tokenize, sentinel, sentinel_len, special_at, DSML,
};
use crate::types::{Ds4Error, Ds4ErrorKind, Ds4Result};
use crate::vocab::{
    last_index, lemma_last_index, token_bytes, token_id, MergeTable, TokenIndex,
};

verus! {

/// A vocabulary: the tokens by id, the pairs that merge, and the ids of the sentinels.
#[derive(Debug, Clone)]
pub struct BpeVocab {
    pub id_to_token: Vec<Vec<u8>>,
    pub merges: MergeTable,
    /// The id of what is not in the vocabulary.
    pub unk_id: u32,
    pub bos_id: u32,
    pub eos_id: u32,
    pub user_id: u32,
    pub assistant_id: u32,
    pub think_start_id: u32,
    pub think_end_id: u32,
    pub dsml_id: u32,
    /// For a byte-level vocabulary, the id of each byte.
    pub byte_to_id: Option<[u32; 256]>,
}

/// What a vocabulary holds.
pub struct VocabView {
    pub tokens: Seq<Seq<u8>>,
    pub merges: Map<(u32, u32), u32>,
    pub unk: u32,
    /// The ids of the sentinels in the order in which they are tried.
    pub specials: Seq<u32>,
    pub bytes: Option<Seq<u32>>,
}

impl View for BpeVocab {
    type V = VocabView;

    open spec fn view(&self) -> VocabView {
        VocabView {
            tokens: token_bytes(self.id_to_token@),
            merges: self.merges@,
            unk: self.unk_id,
            specials: seq![
                self.bos_id,
                self.eos_id,
                self.user_id,
                self.assistant_id,
                self.think_start_id,
                self.think_end_id,
                self.dsml_id,
            ],
            bytes: match self.byte_to_id {
                Some(map) => Some(map@),
                None => None,
            },
        }
    }
}

impl BpeVocab {
    /// A vocabulary without a byte table.
    pub fn new(
        tokens: Vec<Vec<u8>>,
        merges: MergeTable,
        unk_id: u32,
        bos_id: u32,
        eos_id: u32,
        user_id: u32,
        assistant_id: u32,
        think_start_id: u32,
        think_end_id: u32,
        dsml_id: u32,
    ) -> (r: Ds4Result<Self>)
        ensures
            r matches Ok(v) && v@ == (VocabView {
                tokens: token_bytes(tokens@),
                merges: merges@,
                unk: unk_id,
                specials: seq![
                    bos_id,
                    eos_id,
                    user_id,
                    assistant_id,
                    think_start_id,
                    think_end_id,
                    dsml_id,
                ],
                bytes: None,
            }),
    {
        Ok(
            BpeVocab {
                id_to_token: tokens,
                merges,
                unk_id,
                bos_id,
                eos_id,
                user_id,
                assistant_id,
                think_start_id,
                think_end_id,
                dsml_id,
                byte_to_id: None,
            },
        )
    }

    /// Number of tokens.
    pub fn vocab_size(&self) -> (n: u32)
        ensures
            n == self@.tokens.len() as u32,
    {
        self.id_to_token.len() as u32
    }
}

// ---- What a text is tokenized to ----

/// The id of a single byte.
pub open spec fn byte_id(v: VocabView, b: u8) -> u32 {
    match v.bytes {
        Some(map) => map[b as int],
        None => match token_id(v.tokens, seq![b]) {
            Some(id) => id,
            None => v.unk,
        },
    }
}

/// The ids of the bytes of a piece.
pub open spec fn byte_ids(v: VocabView, piece: Seq<u8>) -> Seq<u32> {
    piece.map_values(|b: u8| byte_id(v, b))
}

/// A token in the course of merging: its id and its bytes.
pub struct SymbolView {
    pub id: u32,
    pub bytes: Seq<u8>,
}

/// The symbol of a single byte.
pub open spec fn byte_symbol(v: VocabView, b: u8) -> SymbolView {
    let id = byte_id(v, b);
    SymbolView {
        id,
        bytes: if id < v.tokens.len() {
            v.tokens[id as int]
        } else {
            seq![b]
        },
    }
}

/// The symbols of the bytes of a piece.
pub open spec fn byte_symbols(v: VocabView, piece: Seq<u8>) -> Seq<SymbolView> {
    piece.map_values(|b: u8| byte_symbol(v, b))
}

/// The bytes of two neighbours.
pub open spec fn pair_bytes(syms: Seq<SymbolView>, i: int) -> Seq<u8> {
    syms[i].bytes + syms[i + 1].bytes
}

/// The symbols at `i` and `i + 1` merge: the pair has a rank, and the merged bytes are a token.
pub open spec fn mergeable(v: VocabView, syms: Seq<SymbolView>, i: int) -> bool {
    &&& 0 <= i < syms.len() - 1
    &&& v.merges.contains_key((syms[i].id, syms[i + 1].id))
    &&& token_id(v.tokens, pair_bytes(syms, i)) is Some
}

/// The rank of the pair at `i`.
pub open spec fn rank_at(v: VocabView, syms: Seq<SymbolView>, i: int) -> u32 {
    v.merges[(syms[i].id, syms[i + 1].id)]
}

/// The pair at `i` merges before all others: none has a lower rank, and none of the same rank
/// stands further left.
pub open spec fn is_best(v: VocabView, syms: Seq<SymbolView>, i: int) -> bool {
    &&& mergeable(v, syms, i)
    &&& forall|j: int|
        #[trigger] mergeable(v, syms, j) ==> rank_at(v, syms, i) < rank_at(v, syms, j) || (rank_at(
            v,
            syms,
            i,
        ) == rank_at(v, syms, j) && i <= j)
}

/// The symbols after the pair at `i` was merged.
pub open spec fn merged_at(v: VocabView, syms: Seq<SymbolView>, i: int) -> Seq<SymbolView> {
    syms.take(i).push(
        SymbolView {
            id: token_id(v.tokens, pair_bytes(syms, i)).unwrap(),
            bytes: pair_bytes(syms, i),
        },
    ) + syms.skip(i + 2)
}

/// The symbols after all merging: the best pair is merged until none merges.
pub open spec fn bpe(v: VocabView, syms: Seq<SymbolView>) -> Seq<SymbolView>
    decreases syms.len(),
{
    if exists|i: int| is_best(v, syms, i) {
        bpe(v, merged_at(v, syms, choose|i: int| is_best(v, syms, i)))
    } else {
        syms
    }
}

/// The ids of symbols.
pub open spec fn symbol_ids(syms: Seq<SymbolView>) -> Seq<u32> {
    syms.map_values(|s: SymbolView| s.id)
}

/// The ids of a piece.
pub open spec fn piece_ids(v: VocabView, piece: Seq<u8>) -> Seq<u32> {
    if v.merges == Map::<(u32, u32), u32>::empty() {
        match (v.bytes, token_id(v.tokens, piece)) {
            (None, Some(id)) => seq![id],
            _ => byte_ids(v, piece),
        }
    } else {
        symbol_ids(bpe(v, byte_symbols(v, piece)))
    }
}

/// The ids of pieces, one after the other.
pub open spec fn all_piece_ids(v: VocabView, p: Seq<Seq<u8>>) -> Seq<u32>
    decreases p.len(),
{
    if p.len() == 0 {
        Seq::empty()
    } else {
        all_piece_ids(v, p.drop_last()) + piece_ids(v, p.last())
    }
}

/// The first character at or after `p` at which a sentinel stands, or the end.
pub open spec fn next_special(s: Seq<u8>, p: int) -> int
    decreases (if p <= s.len() { s.len() - p } else { 0 }),
{
    if p < 0 || p >= s.len() {
        s.len() as int
    } else if special_at(s.skip(p)) is Some {
        p
    } else {
        next_special(s, p + lead_len(s[p]))
    }
}

/// The ids of a text: sentinels by their ids, what stands between them by its pieces.
pub open spec fn tokens_of(v: VocabView, s: Seq<u8>) -> Seq<u32>
    decreases s.len(),
{
    if s.len() == 0 {
        Seq::empty()
    } else {
        match special_at(s) {
            Some(i) => {
                let n = sentinel_len(i) as int;
                if 0 < n <= s.len() {
                    seq![v.specials[i]] + tokens_of(v, s.skip(n))
                } else {
                    Seq::empty()
                }
            },
            None => {
                let e = next_special(s, 0);
                if 0 < e <= s.len() {
                    all_piece_ids(v, pieces(s.take(e))) + tokens_of(v, s.skip(e))
                } else {
                    Seq::empty()
                }
            },
        }
    }
}

// ---- What ids are decoded to ----

/// The first byte at or after `from` with this id.
pub open spec fn byte_with_id(map: Seq<u32>, id: u32, from: int) -> Option<int>
    decreases map.len() - from,
{
    if from < 0 || from >= map.len() {
        None
    } else if map[from] == id {
        Some(from)
    } else {
        byte_with_id(map, id, from + 1)
    }
}

/// The bytes of a token.
pub open spec fn id_bytes(v: VocabView, id: u32) -> Option<Seq<u8>> {
    match v.bytes {
        Some(map) => match byte_with_id(map, id, 0) {
            Some(b) => Some(seq![b as u8]),
            None => None,
        },
        None => if id < v.tokens.len() {
            Some(v.tokens[id as int])
        } else {
            None
        },
    }
}

/// All ids stand for bytes.
pub open spec fn all_known(v: VocabView, ids: Seq<u32>) -> bool {
    forall|i: int| 0 <= i < ids.len() ==> id_bytes(v, #[trigger] ids[i]) is Some
}

/// The bytes of ids, one after the other.
pub open spec fn decoded(v: VocabView, ids: Seq<u32>) -> Seq<u8>
    decreases ids.len(),
{
    if ids.len() == 0 {
        Seq::empty()
    } else {
        decoded(v, ids.drop_last()) + id_bytes(v, ids.last()).unwrap()
    }
}

/// The error for an id that stands for nothing.
pub open spec fn unknown_id(e: Ds4Error, v: VocabView, id: u32) -> bool {
    match v.bytes {
        Some(_) => e.is(
            Ds4ErrorKind::Tokenizer,
            "token id "@ + dec(id as nat) + " is not in the byte fallback vocabulary"@,
        ),
        None => e.is(
            Ds4ErrorKind::Tokenizer,
            "token id "@ + dec(id as nat) + " is outside vocabulary size "@ + dec(
                v.tokens.len() as u32 as nat,
            ),
        ),
    }
}

/// What `String::from_utf8` reports of bytes that are not text.
pub uninterp spec fn utf8_error(bytes: Seq<u8>) -> Seq<char>;

/// The error for bytes that are not text. Its message goes on with what the decoder reports.
pub open spec fn not_text(e: Ds4Error, bytes: Seq<u8>) -> bool {
    e.is(
        Ds4ErrorKind::Tokenizer,
        "decoded token bytes are not valid UTF-8: "@ + utf8_error(bytes),
    )
}

/// Reads bytes as text, or gives the text of the error. `String::from_utf8` succeeds exactly on
/// valid UTF-8 and then gives its characters; what it reports otherwise depends on the bytes
/// alone.
#[verifier::external_body]
fn text_of_bytes(bytes: Vec<u8>) -> (r: Result<String, String>)
    ensures
        match r {
            Ok(s) => valid_utf8(bytes@) && s@ == decode_utf8(bytes@),
            Err(t) => !valid_utf8(bytes@) && t@ == utf8_error(bytes@),
        },
{
    String::from_utf8(bytes).map_err(|e| e.to_string())
}

// ---- Facts about sentinels and runs ----

/// What opens a text and is itself text ends at a character boundary.
proof fn lemma_prefix_boundary(s: Seq<u8>, p: Seq<u8>)
    requires
        valid_utf8(s),
        valid_utf8(p),
        p.is_prefix_of(s),
    ensures
        is_char_boundary(s, p.len() as int),
    decreases p.len(),
{
    reveal_with_fuel(is_char_boundary, 2);
    if p.len() > 0 {
        let n = length_of_first_scalar(p);
        assert(p[0] == s[0]);
        assert(n == length_of_first_scalar(s));
        let s2 = pop_first_scalar(s);
        let p2 = pop_first_scalar(p);
        assert(p2 =~= s2.subrange(0, p2.len() as int)) by {
            assert forall|i: int| 0 <= i < p2.len() implies p2[i] == s2[i] by {
                assert(p[i + n] == s[i + n]);
            }
        }
        lemma_prefix_boundary(s2, p2);
    }
}

proof fn lemma_encode_nonempty(chars: Seq<char>)
    requires
        chars.len() > 0,
    ensures
        encode_utf8(chars).len() > 0,
{
    reveal_with_fuel(encode_utf8, 2);
}

/// A sentinel at the start of a text is not empty and ends at a character boundary.
proof fn lemma_special(s: Seq<u8>)
    requires
        valid_utf8(s),
    ensures
        special_at(s) matches Some(i) ==> {
            &&& 0 <= i < 7
            &&& 0 < sentinel_len(i) <= s.len()
            &&& is_char_boundary(s, sentinel_len(i) as int)
        },
{
    if let Some(i) = special_at(s) {
        reveal_strlit("<｜begin▁of▁sentence｜>");
        reveal_strlit("<｜end▁of▁sentence｜>");
        reveal_strlit("<｜User｜>");
        reveal_strlit("<｜Assistant｜>");
        reveal_strlit("<think>");
        reveal_strlit("</think>");
        reveal_strlit("｜DSML｜");
        assert(sentinel(i).len() > 0);
        lemma_encode_nonempty(sentinel(i));
        encode_utf8_valid_utf8(sentinel(i));
        lemma_prefix_boundary(s, encode_utf8(sentinel(i)));
    }
}

/// A run that holds no sentinel ends at a character boundary.
proof fn lemma_next_special(s: Seq<u8>, p: int)
    requires
        valid_utf8(s),
        0 <= p <= s.len(),
        is_char_boundary(s, p),
    ensures
        p <= next_special(s, p) <= s.len(),
        is_char_boundary(s, next_special(s, p)),
        p < s.len() && special_at(s.skip(p)) is None ==> next_special(s, p) > p,
    decreases s.len() - p,
{
    is_char_boundary_start_end_of_seq(s);
    if p < s.len() && special_at(s.skip(p)) is None {
        lemma_next_boundary(s, p);
        lemma_next_special(s, p + lead_len(s[p]));
    }
}

// ---- Laws ----

/// No sentinel stands in the text.
pub open spec fn plain_text(s: Seq<u8>) -> bool {
    next_special(s, 0) == s.len()
}

/// A vocabulary that gives every byte an id of its own, and merges nothing.
pub open spec fn byte_vocab(v: VocabView) -> bool {
    &&& v.bytes matches Some(map) && map.len() == 256 && forall|a: int, b: int|
        0 <= a < b < 256 ==> map[a] != map[b]
    &&& v.merges == Map::<(u32, u32), u32>::empty()
}

/// A vocabulary without a byte table in which every byte is a token.
pub open spec fn complete_vocab(v: VocabView) -> bool {
    &&& v.bytes is None
    &&& v.tokens.len() <= u32::MAX
    &&& forall|b: u8| (#[trigger] last_index(v.tokens, seq![b])) is Some
}

proof fn lemma_byte_with_id(map: Seq<u32>, b: int, from: int)
    requires
        0 <= from <= b < map.len(),
        forall|x: int, y: int| 0 <= x < y < map.len() ==> map[x] != map[y],
    ensures
        byte_with_id(map, map[b], from) == Some(b),
    decreases b - from,
{
    if from < b {
        lemma_byte_with_id(map, b, from + 1);
    }
}

/// Decoding ids, one list after the other, is decoding the two lists.
pub proof fn law_decoded_concat(v: VocabView, a: Seq<u32>, b: Seq<u32>)
    ensures
        decoded(v, a + b) == decoded(v, a) + decoded(v, b),
    decreases b.len(),
{
    if b.len() == 0 {
        assert(a + b =~= a);
        assert(decoded(v, a) + decoded(v, b) =~= decoded(v, a));
    } else {
        law_decoded_concat(v, a, b.drop_last());
        assert((a + b).drop_last() =~= a + b.drop_last());
        assert(decoded(v, a + b) =~= decoded(v, a) + decoded(v, b));
    }
}

proof fn lemma_known_concat(v: VocabView, a: Seq<u32>, b: Seq<u32>)
    requires
        all_known(v, a),
        all_known(v, b),
    ensures
        all_known(v, a + b),
{
    assert forall|i: int| 0 <= i < (a + b).len() implies id_bytes(
        v,
        #[trigger] (a + b)[i],
    ) is Some by {
        if i < a.len() {
            assert((a + b)[i] == a[i]);
        } else {
            assert((a + b)[i] == b[i - a.len()]);
        }
    }
}

/// The bytes of a piece come back from their ids, in a byte-level vocabulary and in one in which
/// every byte is a token.
proof fn lemma_byte_ids_decode(v: VocabView, piece: Seq<u8>)
    requires
        byte_vocab(v) || complete_vocab(v),
    ensures
        all_known(v, byte_ids(v, piece)),
        decoded(v, byte_ids(v, piece)) == piece,
    decreases piece.len(),
{
    if piece.len() > 0 {
        let init = piece.drop_last();
        let b = piece.last();
        lemma_byte_ids_decode(v, init);
        assert(byte_ids(v, piece).drop_last() =~= byte_ids(v, init));
        assert(byte_ids(v, piece).last() == byte_id(v, b));
        if byte_vocab(v) {
            lemma_byte_with_id(v.bytes.unwrap(), b as int, 0);
        } else {
            assert(last_index(v.tokens, seq![b]) is Some);
            lemma_last_index(v.tokens, seq![b]);
        }
        assert(id_bytes(v, byte_id(v, b)) == Some(seq![b]));
        assert(init + seq![b] =~= piece);
        assert forall|i: int| 0 <= i < piece.len() implies id_bytes(
            v,
            #[trigger] byte_ids(v, piece)[i],
        ) is Some by {
            if i < init.len() {
                assert(byte_ids(v, piece)[i] == byte_ids(v, init)[i]);
            }
        }
    }
}

/// Every symbol is the token of its id.
spec fn true_symbols(v: VocabView, syms: Seq<SymbolView>) -> bool {
    forall|i: int|
        0 <= i < syms.len() ==> (#[trigger] syms[i]).id < v.tokens.len() && v.tokens[syms[i].id as int]
            == syms[i].bytes
}

proof fn lemma_true_symbols_decode(v: VocabView, syms: Seq<SymbolView>)
    requires
        complete_vocab(v),
        true_symbols(v, syms),
    ensures
        all_known(v, symbol_ids(syms)),
        decoded(v, symbol_ids(syms)) == symbols_joined(syms),
    decreases syms.len(),
{
    if syms.len() > 0 {
        let init = syms.drop_last();
        assert forall|i: int| 0 <= i < init.len() implies (#[trigger] init[i]).id < v.tokens.len()
            && v.tokens[init[i].id as int] == init[i].bytes by {
            assert(init[i] == syms[i]);
        }
        lemma_true_symbols_decode(v, init);
        assert(symbol_ids(syms).drop_last() =~= symbol_ids(init));
        assert(symbol_ids(syms).last() == syms.last().id);
        assert(syms.last() == syms[syms.len() - 1]);
        assert forall|i: int| 0 <= i < syms.len() implies id_bytes(
            v,
            #[trigger] symbol_ids(syms)[i],
        ) is Some by {
            assert(symbol_ids(syms)[i] == syms[i].id);
        }
    }
}

/// The bytes of symbols, one after the other.
spec fn symbols_joined(syms: Seq<SymbolView>) -> Seq<u8>
    decreases syms.len(),
{
    if syms.len() == 0 {
        Seq::empty()
    } else {
        symbols_joined(syms.drop_last()) + syms.last().bytes
    }
}

proof fn lemma_symbols_joined_concat(a: Seq<SymbolView>, b: Seq<SymbolView>)
    ensures
        symbols_joined(a + b) == symbols_joined(a) + symbols_joined(b),
    decreases b.len(),
{
    if b.len() == 0 {
        assert(a + b =~= a);
        assert(symbols_joined(a) + symbols_joined(b) =~= symbols_joined(a));
    } else {
        lemma_symbols_joined_concat(a, b.drop_last());
        assert((a + b).drop_last() =~= a + b.drop_last());
        assert(symbols_joined(a + b) =~= symbols_joined(a) + symbols_joined(b));
    }
}

proof fn lemma_byte_symbols(v: VocabView, piece: Seq<u8>)
    requires
        complete_vocab(v),
    ensures
        true_symbols(v, byte_symbols(v, piece)),
        symbols_joined(byte_symbols(v, piece)) == piece,
    decreases piece.len(),
{
    assert forall|i: int| 0 <= i < piece.len() implies (#[trigger] byte_symbols(v, piece)[i]).id
        < v.tokens.len() && v.tokens[byte_symbols(v, piece)[i].id as int] == byte_symbols(
        v,
        piece,
    )[i].bytes && byte_symbols(v, piece)[i].bytes == seq![piece[i]] by {
        assert(last_index(v.tokens, seq![piece[i]]) is Some);
        lemma_last_index(v.tokens, seq![piece[i]]);
    }
    if piece.len() > 0 {
        lemma_byte_symbols(v, piece.drop_last());
        assert(byte_symbols(v, piece).drop_last() =~= byte_symbols(v, piece.drop_last()));
        assert(byte_symbols(v, piece).last() == byte_symbols(v, piece)[piece.len() - 1]);
        assert(piece.drop_last() + seq![piece.last()] =~= piece);
    }
}

/// Merging changes neither the bytes that the symbols make up, nor that they are tokens.
proof fn lemma_bpe(v: VocabView, syms: Seq<SymbolView>)
    requires
        complete_vocab(v),
        true_symbols(v, syms),
    ensures
        true_symbols(v, bpe(v, syms)),
        symbols_joined(bpe(v, syms)) == symbols_joined(syms),
    decreases syms.len(),
{
    if exists|i: int| is_best(v, syms, i) {
        let i = choose|i: int| is_best(v, syms, i);
        let next = merged_at(v, syms, i);
        let bytes = pair_bytes(syms, i);
        lemma_last_index(v.tokens, bytes);
        let mid = SymbolView { id: token_id(v.tokens, bytes).unwrap(), bytes };
        assert forall|k: int| 0 <= k < next.len() implies (#[trigger] next[k]).id < v.tokens.len()
            && v.tokens[next[k].id as int] == next[k].bytes by {
            if k < i {
                assert(next[k] == syms[k]);
            } else if k == i {
                assert(next[k] == mid);
            } else {
                assert(next[k] == syms[k + 1]);
            }
        }
        let head = syms.take(i);
        let tail = syms.skip(i + 2);
        assert(syms =~= head.push(syms[i]).push(syms[i + 1]) + tail);
        lemma_symbols_joined_concat(head.push(syms[i]).push(syms[i + 1]), tail);
        lemma_symbols_joined_concat(head.push(mid), tail);
        assert(head.push(syms[i]).push(syms[i + 1]).drop_last() =~= head.push(syms[i]));
        assert(head.push(syms[i]).drop_last() =~= head);
        assert(head.push(mid).drop_last() =~= head);
        assert(symbols_joined(head.push(syms[i])) == symbols_joined(head) + syms[i].bytes);
        assert(symbols_joined(head.push(syms[i]).push(syms[i + 1])) == symbols_joined(
            head.push(syms[i]),
        ) + syms[i + 1].bytes);
        assert(symbols_joined(head.push(syms[i]).push(syms[i + 1])) =~= symbols_joined(head)
            + bytes);
        assert(symbols_joined(head.push(mid)) == symbols_joined(head) + bytes);
        assert(symbols_joined(next) =~= symbols_joined(syms));
        lemma_bpe(v, next);
    }
}

proof fn lemma_piece_decode(v: VocabView, piece: Seq<u8>)
    requires
        byte_vocab(v) || complete_vocab(v),
    ensures
        all_known(v, piece_ids(v, piece)),
        decoded(v, piece_ids(v, piece)) == piece,
{
    if v.merges == Map::<(u32, u32), u32>::empty() {
        if v.bytes is None && token_id(v.tokens, piece) is Some {
            lemma_last_index(v.tokens, piece);
            let ids = piece_ids(v, piece);
            assert(ids.drop_last() =~= Seq::<u32>::empty());
            assert(decoded(v, ids.drop_last()) =~= Seq::<u8>::empty());
            assert(id_bytes(v, ids.last()) == Some(piece));
            assert(decoded(v, ids) =~= piece);
        } else {
            lemma_byte_ids_decode(v, piece);
        }
    } else {
        let syms = byte_symbols(v, piece);
        lemma_byte_symbols(v, piece);
        lemma_bpe(v, syms);
        lemma_true_symbols_decode(v, bpe(v, syms));
    }
}

proof fn lemma_joined_push(p: Seq<Seq<u8>>)
    requires
        p.len() > 0,
    ensures
        joined(p) == joined(p.drop_last()) + p.last(),
    decreases p.len(),
{
    if p.len() == 1 {
        assert(p.skip(1) =~= Seq::<Seq<u8>>::empty());
        assert(p.drop_last() =~= Seq::<Seq<u8>>::empty());
        assert(joined(p.skip(1)) =~= Seq::<u8>::empty());
        assert(joined(p) =~= p.last());
        assert(joined(p.drop_last()) + p.last() =~= p.last());
    } else {
        lemma_joined_push(p.skip(1));
        assert(p.skip(1).drop_last() =~= p.drop_last().skip(1));
        assert(p.skip(1).last() == p.last());
        assert(joined(p) =~= joined(p.drop_last()) + p.last());
    }
}

proof fn lemma_pieces_decode(v: VocabView, p: Seq<Seq<u8>>)
    requires
        byte_vocab(v) || complete_vocab(v),
    ensures
        all_known(v, all_piece_ids(v, p)),
        decoded(v, all_piece_ids(v, p)) == joined(p),
    decreases p.len(),
{
    if p.len() > 0 {
        lemma_pieces_decode(v, p.drop_last());
        lemma_piece_decode(v, p.last());
        law_decoded_concat(v, all_piece_ids(v, p.drop_last()), piece_ids(v, p.last()));
        lemma_known_concat(v, all_piece_ids(v, p.drop_last()), piece_ids(v, p.last()));
        lemma_joined_push(p);
    }
}

/// A text without sentinels comes back from its tokens, whatever merges the vocabulary has: with
/// a byte table that gives every byte an id of its own, and with a token list in which every byte
/// is a token.
pub proof fn law_tokenize_roundtrip(v: VocabView, s: Seq<u8>)
    requires
        byte_vocab(v) || complete_vocab(v),
        valid_utf8(s),
        plain_text(s),
    ensures
        all_known(v, tokens_of(v, s)),
        decoded(v, tokens_of(v, s)) == s,
{
    if s.len() > 0 {
        is_char_boundary_start_end_of_seq(s);
        assert(s.skip(0) =~= s);
        assert(special_at(s) is None);
        assert(s.take(s.len() as int) =~= s);
        let ids = all_piece_ids(v, pieces(s));
        assert(s.skip(s.len() as int) =~= Seq::<u8>::empty());
        assert(tokens_of(v, s.skip(s.len() as int)) =~= Seq::<u32>::empty());
        assert(tokens_of(v, s) =~= ids);
        law_pieces_partition(s);
        lemma_pieces_decode(v, pieces(s));
    }
}

/// A text that opens with a sentinel gives the id of the sentinel first, then the tokens of what
/// follows it.
pub proof fn law_sentinel_first(v: VocabView, s: Seq<u8>)
    requires
        valid_utf8(s),
        special_at(s) is Some,
    ensures
        tokens_of(v, s) == seq![v.specials[special_at(s).unwrap()]] + tokens_of(
            v,
            s.skip(sentinel_len(special_at(s).unwrap()) as int),
        ),
{
    lemma_special(s);
}

// ---- Vocabularies in model files ----

/// The value of a hexadecimal digit.
pub open spec fn hex_value(c: u8) -> Option<u8> {
    if 48 <= c <= 57 {
        Some((c - 48) as u8)
    } else if 97 <= c <= 102 {
        Some((c - 87) as u8)
    } else if 65 <= c <= 70 {
        Some((c - 55) as u8)
    } else {
        None
    }
}

/// The byte that two characters give: two hexadecimal digits, or a plus sign and one.
pub open spec fn hex_byte(a: u8, b: u8) -> Option<u8> {
    match (hex_value(a), hex_value(b)) {
        (Some(x), Some(y)) => Some((16 * x + y) as u8),
        (None, Some(y)) => if a == 43 {
            Some(y)
        } else {
            None
        },
        _ => None,
    }
}

/// The bytes of a token as a model file spells it: `<0xHH>` stands for a single byte.
pub open spec fn spelled_token(s: Seq<u8>) -> Seq<u8> {
    if s.len() == 6 && s[0] == 60 && s[1] == 48 && s[2] == 120 && s[5] == 62 && hex_byte(
        s[3],
        s[4],
    ) is Some {
        seq![hex_byte(s[3], s[4]).unwrap()]
    } else {
        s
    }
}

fn hex_digit(c: u8) -> (r: Option<u8>)
    ensures
        r == hex_value(c),
{
    if c >= 48 && c <= 57 {
        Some(c - 48)
    } else if c >= 97 && c <= 102 {
        Some(c - 87)
    } else if c >= 65 && c <= 70 {
        Some(c - 55)
    } else {
        None
    }
}

/// The bytes of a token as a model file spells it.
pub fn token_string_to_bytes(token: &str) -> (r: Vec<u8>)
    ensures
        r@ == spelled_token(token.spec_bytes()),
{
    let s: &[u8] = token.as_bytes();
    if s.len() == 6 && s[0] == 60 && s[1] == 48 && s[2] == 120 && s[5] == 62 {
        let byte: Option<u8> = match (hex_digit(s[3]), hex_digit(s[4])) {
            (Some(x), Some(y)) => Some(16 * x + y),
            (None, Some(y)) => if s[3] == 43 {
                Some(y)
            } else {
                None
            },
            _ => None,
        };
        if let Some(b) = byte {
            let mut one: Vec<u8> = Vec::new();
            one.push(b);
            assert(one@ =~= spelled_token(token.spec_bytes()));
            return one;
        }
    }
    let all: Vec<u8> = copy_bytes(s, 0, s.len());
    assert(all@ =~= s@);
    all
}

/// The first space at or after `from`.
pub open spec fn space_from(s: Seq<u8>, from: int) -> Option<int>
    decreases s.len() - from,
{
    if from < 0 || from >= s.len() {
        None
    } else if s[from] == 32 {
        Some(from)
    } else {
        space_from(s, from + 1)
    }
}

/// The pair that a merge line names: two tokens with a space between them.
pub open spec fn merge_pair(tokens: Seq<Seq<u8>>, line: Seq<u8>) -> Option<(u32, u32)> {
    match space_from(line, 0) {
        None => None,
        Some(k) => match (token_id(tokens, line.take(k)), token_id(tokens, line.skip(k + 1))) {
            (Some(left), Some(right)) => Some((left, right)),
            _ => None,
        },
    }
}

/// The ranks of merge lines: a pair has the number of the last line that names it.
pub open spec fn merge_ranks(tokens: Seq<Seq<u8>>, lines: Seq<Seq<u8>>) -> Map<(u32, u32), u32>
    decreases lines.len(),
{
    if lines.len() == 0 {
        Map::empty()
    } else {
        let earlier = merge_ranks(tokens, lines.drop_last());
        match merge_pair(tokens, lines.last()) {
            Some(pair) => earlier.insert(pair, (lines.len() - 1) as u32),
            None => earlier,
        }
    }
}

/// The line that merges two tokens: their bytes with a space between them.
pub open spec fn merge_line(tokens: Seq<Seq<u8>>, a: u32, b: u32) -> Seq<u8> {
    tokens[a as int] + seq![32u8] + tokens[b as int]
}

/// No byte of the token is a space, and no token after it has the same bytes.
pub open spec fn can_lead(tokens: Seq<Seq<u8>>, a: u32) -> bool {
    &&& is_last(tokens, a)
    &&& forall|k: int| 0 <= k < tokens[a as int].len() ==> #[trigger] tokens[a as int][k] != 32
}

/// No token after this one has the same bytes.
pub open spec fn is_last(tokens: Seq<Seq<u8>>, a: u32) -> bool {
    &&& a < tokens.len()
    &&& forall|j: int| a < j < tokens.len() ==> #[trigger] tokens[j] != tokens[a as int]
}

proof fn lemma_space_from(s: Seq<u8>, k: int, from: int)
    requires
        0 <= from <= k < s.len(),
        s[k] == 32,
        forall|i: int| from <= i < k ==> s[i] != 32,
    ensures
        space_from(s, from) == Some(k),
    decreases k - from,
{
    if from < k {
        lemma_space_from(s, k, from + 1);
    }
}

proof fn lemma_space_found(s: Seq<u8>, from: int)
    requires
        0 <= from,
    ensures
        space_from(s, from) matches Some(k) ==> from <= k < s.len() && s[k] == 32 && forall|i: int|
            from <= i < k ==> s[i] != 32,
    decreases s.len() - from,
{
    if from < s.len() && s[from] != 32 {
        lemma_space_found(s, from + 1);
    }
}

proof fn lemma_merge_pair(tokens: Seq<Seq<u8>>, a: u32, b: u32)
    requires
        tokens.len() <= u32::MAX,
        can_lead(tokens, a),
        is_last(tokens, b),
    ensures
        merge_pair(tokens, merge_line(tokens, a, b)) == Some((a, b)),
{
    let line = merge_line(tokens, a, b);
    let k = tokens[a as int].len() as int;
    assert forall|i: int| 0 <= i < k implies line[i] != 32 by {
        assert(line[i] == tokens[a as int][i]);
    }
    lemma_space_from(line, k, 0);
    assert(line.take(k) =~= tokens[a as int]);
    assert(line.skip(k + 1) =~= tokens[b as int]);
    lemma_last_index(tokens, tokens[a as int]);
    lemma_last_index(tokens, tokens[b as int]);
}

/// What a line merges is two tokens that the line spells.
proof fn lemma_pair_spelled(tokens: Seq<Seq<u8>>, line: Seq<u8>)
    requires
        tokens.len() <= u32::MAX,
    ensures
        merge_pair(tokens, line) matches Some((a, b)) ==> {
            &&& can_lead(tokens, a)
            &&& is_last(tokens, b)
            &&& line == merge_line(tokens, a, b)
        },
{
    if let Some((a, b)) = merge_pair(tokens, line) {
        lemma_space_found(line, 0);
        let k = space_from(line, 0).unwrap();
        lemma_last_index(tokens, line.take(k));
        lemma_last_index(tokens, line.skip(k + 1));
        assert(line =~= merge_line(tokens, a, b));
        assert forall|i: int| 0 <= i < tokens[a as int].len() implies #[trigger] tokens[a as int][i]
            != 32 by {
            assert(line.take(k)[i] == line[i]);
        }
    }
}

/// The rank of a pair is the place of the line that spells it, of several the last one.
pub proof fn law_rank_is_line(tokens: Seq<Seq<u8>>, lines: Seq<Seq<u8>>, i: int, a: u32, b: u32)
    requires
        tokens.len() <= u32::MAX,
        0 <= i < lines.len() <= u32::MAX,
        can_lead(tokens, a),
        is_last(tokens, b),
        lines[i] == tokens[a as int] + seq![32u8] + tokens[b as int],
        forall|j: int| i < j < lines.len() ==> lines[j] != lines[i],
    ensures
        merge_ranks(tokens, lines).contains_key((a, b)),
        merge_ranks(tokens, lines)[(a, b)] == i,
    decreases lines.len(),
{
    lemma_merge_pair(tokens, a, b);
    if i < lines.len() - 1 {
        let less = lines.drop_last();
        assert forall|j: int| i < j < less.len() implies less[j] != less[i] by {
            assert(less[j] == lines[j]);
        }
        law_rank_is_line(tokens, less, i, a, b);
        lemma_pair_spelled(tokens, lines.last());
        assert(lines.last() == lines[lines.len() - 1]);
    }
}

/// A pair has a rank only from a line that spells it.
pub proof fn law_rank_has_line(tokens: Seq<Seq<u8>>, lines: Seq<Seq<u8>>, a: u32, b: u32)
    requires
        tokens.len() <= u32::MAX,
        lines.len() <= u32::MAX,
        merge_ranks(tokens, lines).contains_key((a, b)),
    ensures
        merge_ranks(tokens, lines)[(a, b)] < lines.len(),
        lines[merge_ranks(tokens, lines)[(a, b)] as int] == tokens[a as int] + seq![32u8]
            + tokens[b as int],
        can_lead(tokens, a),
        is_last(tokens, b),
    decreases lines.len(),
{
    lemma_pair_spelled(tokens, lines.last());
    if merge_pair(tokens, lines.last()) != Some((a, b)) {
        let less = lines.drop_last();
        law_rank_has_line(tokens, less, a, b);
        let r = merge_ranks(tokens, less)[(a, b)];
        assert(less[r as int] == lines[r as int]);
    }
}

/// Of two pairs that lines spell, the one whose line comes first has the lower rank.
pub proof fn law_earlier_line_ranks_lower(
    tokens: Seq<Seq<u8>>,
    lines: Seq<Seq<u8>>,
    i: int,
    first: (u32, u32),
    j: int,
    second: (u32, u32),
)
    requires
        tokens.len() <= u32::MAX,
        0 <= i < j < lines.len() <= u32::MAX,
        lines.no_duplicates(),
        can_lead(tokens, first.0),
        is_last(tokens, first.1),
        can_lead(tokens, second.0),
        is_last(tokens, second.1),
        lines[i] == tokens[first.0 as int] + seq![32u8] + tokens[first.1 as int],
        lines[j] == tokens[second.0 as int] + seq![32u8] + tokens[second.1 as int],
    ensures
        merge_ranks(tokens, lines).contains_key(first),
        merge_ranks(tokens, lines).contains_key(second),
        merge_ranks(tokens, lines)[first] < merge_ranks(tokens, lines)[second],
{
    law_rank_is_line(tokens, lines, i, first.0, first.1);
    law_rank_is_line(tokens, lines, j, second.0, second.1);
}

/// Neighbours that can merge: a line spells them, and what they make up is a token.
pub open spec fn neighbours_merge(
    tokens: Seq<Seq<u8>>,
    lines: Seq<Seq<u8>>,
    syms: Seq<SymbolView>,
    i: int,
    line: int,
) -> bool {
    &&& 0 <= i < syms.len() - 1
    &&& 0 <= line < lines.len()
    &&& lines[line] == tokens[syms[i].id as int] + seq![32u8] + tokens[syms[i + 1].id as int]
    &&& can_lead(tokens, syms[i].id)
    &&& is_last(tokens, syms[i + 1].id)
    &&& tokens.contains(syms[i].bytes + syms[i + 1].bytes)
}

proof fn lemma_neighbours(
    v: VocabView,
    lines: Seq<Seq<u8>>,
    syms: Seq<SymbolView>,
    i: int,
    line: int,
)
    requires
        v.tokens.len() <= u32::MAX,
        lines.len() <= u32::MAX,
        lines.no_duplicates(),
        v.merges == merge_ranks(v.tokens, lines),
        neighbours_merge(v.tokens, lines, syms, i, line),
    ensures
        mergeable(v, syms, i),
        rank_at(v, syms, i) == line,
{
    law_rank_is_line(v.tokens, lines, line, syms[i].id, syms[i + 1].id);
    lemma_last_index(v.tokens, pair_bytes(syms, i));
}

proof fn lemma_mergeable_neighbours(
    v: VocabView,
    lines: Seq<Seq<u8>>,
    syms: Seq<SymbolView>,
    i: int,
)
    requires
        v.tokens.len() <= u32::MAX,
        lines.len() <= u32::MAX,
        v.merges == merge_ranks(v.tokens, lines),
        mergeable(v, syms, i),
    ensures
        neighbours_merge(v.tokens, lines, syms, i, rank_at(v, syms, i) as int),
{
    law_rank_has_line(v.tokens, lines, syms[i].id, syms[i + 1].id);
    lemma_last_index(v.tokens, pair_bytes(syms, i));
    let at = last_index(v.tokens, pair_bytes(syms, i)).unwrap();
    assert(v.tokens[at] == syms[i].bytes + syms[i + 1].bytes);
}

/// Of all neighbours that can merge, those whose line comes first are merged first, of several such
/// neighbours the ones furthest left: they become the token of their joined bytes, and merging
/// goes on from there.
pub proof fn law_first_line_merges_first(
    v: VocabView,
    lines: Seq<Seq<u8>>,
    syms: Seq<SymbolView>,
    i: int,
    line: int,
    whole: u32,
)
    requires
        v.tokens.len() <= u32::MAX,
        lines.len() <= u32::MAX,
        lines.no_duplicates(),
        v.merges == merge_ranks(v.tokens, lines),
        neighbours_merge(v.tokens, lines, syms, i, line),
        forall|j: int, other: int|
            #[trigger] neighbours_merge(v.tokens, lines, syms, j, other) ==> line < other || (line
                == other && i <= j),
        is_last(v.tokens, whole),
        v.tokens[whole as int] == syms[i].bytes + syms[i + 1].bytes,
    ensures
        bpe(v, syms) == bpe(
            v,
            syms.take(i) + seq![SymbolView { id: whole, bytes: v.tokens[whole as int] }]
                + syms.skip(i + 2),
        ),
{
    lemma_neighbours(v, lines, syms, i, line);
    assert forall|j: int| #[trigger] mergeable(v, syms, j) implies rank_at(v, syms, i) < rank_at(
        v,
        syms,
        j,
    ) || (rank_at(v, syms, i) == rank_at(v, syms, j) && i <= j) by {
        lemma_mergeable_neighbours(v, lines, syms, j);
    }
    assert(is_best(v, syms, i));
    let c = choose|c: int| is_best(v, syms, c);
    assert(is_best(v, syms, c));
    assert(mergeable(v, syms, c) && mergeable(v, syms, i));
    assert(c == i);
    lemma_last_index(v.tokens, pair_bytes(syms, i));
    assert(merged_at(v, syms, i) =~= syms.take(i) + seq![
        SymbolView { id: whole, bytes: v.tokens[whole as int] },
    ] + syms.skip(i + 2));
}

/// Merging ends exactly where no neighbours can merge any more.
pub proof fn law_merging_ends(v: VocabView, lines: Seq<Seq<u8>>, syms: Seq<SymbolView>)
    requires
        v.tokens.len() <= u32::MAX,
        lines.len() <= u32::MAX,
        lines.no_duplicates(),
        v.merges == merge_ranks(v.tokens, lines),
    ensures
        forall|j: int, other: int|
            !#[trigger] neighbours_merge(v.tokens, lines, bpe(v, syms), j, other),
        (forall|j: int, other: int|
            !#[trigger] neighbours_merge(v.tokens, lines, syms, j, other)) ==> bpe(v, syms) == syms,
    decreases syms.len(),
{
    if exists|i: int| is_best(v, syms, i) {
        let i = choose|i: int| is_best(v, syms, i);
        law_merging_ends(v, lines, merged_at(v, syms, i));
        assert(bpe(v, syms) == bpe(v, merged_at(v, syms, i)));
        assert(mergeable(v, syms, i));
        lemma_mergeable_neighbours(v, lines, syms, i);
    } else {
        assert(bpe(v, syms) == syms);
        assert forall|j: int, other: int|
            !#[trigger] neighbours_merge(v.tokens, lines, syms, j, other) by {
            if neighbours_merge(v.tokens, lines, syms, j, other) {
                lemma_neighbours(v, lines, syms, j, other);
                lemma_best_exists(v, syms, j);
            }
        }
    }
}

proof fn lemma_best_exists(v: VocabView, syms: Seq<SymbolView>, j: int)
    requires
        mergeable(v, syms, j),
    ensures
        exists|i: int| is_best(v, syms, i),
    decreases rank_at(v, syms, j), j,
{
    if !is_best(v, syms, j) {
        let k = choose|k: int|
            #[trigger] mergeable(v, syms, k) && !(rank_at(v, syms, j) < rank_at(v, syms, k) || (
            rank_at(v, syms, j) == rank_at(v, syms, k) && j <= k));
        lemma_best_exists(v, syms, k);
    }
}

/// In a piece of three bytes whose first two and last two merge by lines of the file, the two whose
/// line comes first become one token, and the third byte stays one, unless a line merges these two
/// as well.
pub proof fn law_three_bytes(
    v: VocabView,
    lines: Seq<Seq<u8>>,
    x: u32,
    y: u32,
    z: u32,
    xy: u32,
    yz: u32,
    i: int,
    j: int,
)
    requires
        v.tokens.len() <= u32::MAX,
        lines.len() <= u32::MAX,
        lines.no_duplicates(),
        v.bytes is None,
        v.merges == merge_ranks(v.tokens, lines),
        can_lead(v.tokens, x) && can_lead(v.tokens, y) && is_last(v.tokens, z),
        is_last(v.tokens, xy) && is_last(v.tokens, yz),
        v.tokens[x as int].len() == 1,
        v.tokens[y as int].len() == 1,
        v.tokens[z as int].len() == 1,
        v.tokens[x as int] != v.tokens[y as int] || v.tokens[y as int] != v.tokens[z as int],
        v.tokens[xy as int] == v.tokens[x as int] + v.tokens[y as int],
        v.tokens[yz as int] == v.tokens[y as int] + v.tokens[z as int],
        0 <= i < lines.len() && 0 <= j < lines.len(),
        lines[i] == v.tokens[x as int] + seq![32u8] + v.tokens[y as int],
        lines[j] == v.tokens[y as int] + seq![32u8] + v.tokens[z as int],
        !lines.contains(v.tokens[xy as int] + seq![32u8] + v.tokens[z as int]),
        !lines.contains(v.tokens[x as int] + seq![32u8] + v.tokens[yz as int]),
    ensures
        piece_ids(
            v,
            v.tokens[x as int] + v.tokens[y as int] + v.tokens[z as int],
        ) == if i < j {
            seq![xy, z]
        } else {
            seq![x, yz]
        },
{
    let t = v.tokens;
    let piece = t[x as int] + t[y as int] + t[z as int];
    let syms = byte_symbols(v, piece);
    lemma_last_index(t, t[x as int]);
    lemma_last_index(t, t[y as int]);
    lemma_last_index(t, t[z as int]);
    assert(t[x as int] =~= seq![piece[0]]);
    assert(t[y as int] =~= seq![piece[1]]);
    assert(t[z as int] =~= seq![piece[2]]);
    let sx = SymbolView { id: x, bytes: t[x as int] };
    let sy = SymbolView { id: y, bytes: t[y as int] };
    let sz = SymbolView { id: z, bytes: t[z as int] };
    assert(syms =~= seq![sx, sy, sz]);
    assert(neighbours_merge(t, lines, syms, 0, i)) by {
        assert(t.contains(t[xy as int]));
    }
    assert(neighbours_merge(t, lines, syms, 1, j)) by {
        assert(t.contains(t[yz as int]));
    }
    if i == j {
        assert(lines[i][0] == t[x as int][0]);
        assert(lines[j][0] == t[y as int][0]);
        assert(lines[i][2] == t[y as int][0]);
        assert(lines[j][2] == t[z as int][0]);
        assert(t[x as int] =~= t[y as int]);
        assert(t[y as int] =~= t[z as int]);
        assert(false);
    }
    law_rank_is_line(t, lines, i, x, y);
    assert(v.merges.contains_key((x, y)));
    assert(v.merges != Map::<(u32, u32), u32>::empty());
    assert forall|k: int, other: int| #[trigger]
        neighbours_merge(t, lines, syms, k, other) implies (k == 0 && other == i) || (k == 1
        && other == j) by {
        if k == 0 {
            assert(lines[other] == lines[i]);
        } else {
            assert(lines[other] == lines[j]);
        }
    }
    if i < j {
        law_first_line_merges_first(v, lines, syms, 0, i, xy);
        let sxy = SymbolView { id: xy, bytes: t[xy as int] };
        let next = seq![sxy, sz];
        assert(syms.take(0) + seq![sxy] + syms.skip(2) =~= next);
        assert forall|k: int, other: int|
            !#[trigger] neighbours_merge(t, lines, next, k, other) by {
            if neighbours_merge(t, lines, next, k, other) {
                assert(lines.contains(lines[other]));
            }
        }
        law_merging_ends(v, lines, next);
        assert(symbol_ids(next) =~= seq![xy, z]);
    } else {
        law_first_line_merges_first(v, lines, syms, 1, j, yz);
        let syz = SymbolView { id: yz, bytes: t[yz as int] };
        let next = seq![sx, syz];
        assert(syms.take(1) + seq![syz] + syms.skip(3) =~= next);
        assert forall|k: int, other: int|
            !#[trigger] neighbours_merge(t, lines, next, k, other) by {
            if neighbours_merge(t, lines, next, k, other) {
                assert(lines.contains(lines[other]));
            }
        }
        law_merging_ends(v, lines, next);
        assert(symbol_ids(next) =~= seq![x, yz]);
    }
}

/// The UTF-8 bytes of strings.
pub open spec fn utf8_lines(lines: Seq<String>) -> Seq<Seq<u8>> {
    lines.map_values(|l: String| encode_utf8(l@))
}

fn find_space(s: &[u8]) -> (r: Option<usize>)
    ensures
        match r {
            Some(k) => space_from(s@, 0) == Some(k as int) && k < s@.len(),
            None => space_from(s@, 0) is None,
        },
{
    let mut i: usize = 0;
    while i < s.len()
        invariant
            i <= s@.len(),
            space_from(s@, i as int) == space_from(s@, 0),
        decreases s@.len() - i,
    {
        if s[i] == 32 {
            return Some(i);
        }
        i += 1;
    }
    None
}

/// The ranks of merge lines over a token list.
pub fn build_merge_ranks(tokens: &Vec<Vec<u8>>, merge_strings: &Vec<String>) -> (r: MergeTable)
    ensures
        r@ == merge_ranks(token_bytes(tokens@), utf8_lines(merge_strings@)),
{
    let ghost all = token_bytes(tokens@);
    let ghost lines = utf8_lines(merge_strings@);
    let index = TokenIndex::build(tokens);
    let mut ranks = MergeTable::new();
    let mut i: usize = 0;
    while i < merge_strings.len()
        invariant
            i <= merge_strings@.len(),
            all == token_bytes(tokens@),
            lines == utf8_lines(merge_strings@),
            index.indexes(all),
            ranks@ == merge_ranks(all, lines.take(i as int)),
        decreases merge_strings@.len() - i,
    {
        let line: &[u8] = merge_strings[i].as_str().as_bytes();
        proof {
            let next = lines.take(i + 1);
            assert(next.drop_last() =~= lines.take(i as int));
            assert(next.last() == line@);
        }
        if let Some(k) = find_space(line) {
            assert(line@.len() == line.len());
            let left: Vec<u8> = copy_bytes(line, 0, k);
            let right: Vec<u8> = copy_bytes(line, k + 1, line.len());
            assert(left@ =~= line@.take(k as int));
            assert(right@ =~= line@.skip(k + 1));
            let l: Option<u32> = index.find(tokens, left.as_slice());
            let r: Option<u32> = index.find(tokens, right.as_slice());
            if let (Some(a), Some(b)) = (l, r) {
                ranks.insert(a, b, i as u32);
            }
        }
        i += 1;
    }
    assert(lines.take(i as int) =~= lines);
    ranks
}

/// The id that the metadata gives, or that of what is not in the vocabulary.
pub open spec fn id_or(id: Option<u32>, unk: u32) -> u32 {
    match id {
        Some(id) => id,
        None => unk,
    }
}

/// The vocabulary of a model file, if it has tokens.
pub open spec fn file_vocab(gguf: GgufFile) -> Option<VocabView> {
    match gguf.strings("tokenizer.ggml.tokens"@) {
        None => None,
        Some(raw) => if raw.len() == 0 {
            None
        } else {
            let tokens = raw.map_values(|t: String| spelled_token(encode_utf8(t@)));
            let lines = match gguf.strings("tokenizer.ggml.merges"@) {
                Some(lines) => utf8_lines(lines),
                None => Seq::empty(),
            };
            let unk = id_or(gguf.number("tokenizer.ggml.unk_token_id"@), 0);
            Some(
                VocabView {
                    tokens,
                    merges: merge_ranks(tokens, lines),
                    unk,
                    specials: seq![
                        id_or(gguf.metadata.bos_token_id, unk),
                        id_or(gguf.metadata.eos_token_id, unk),
                        id_or(gguf.metadata.user_token_id, unk),
                        id_or(gguf.metadata.assistant_token_id, unk),
                        id_or(gguf.metadata.think_start_token_id, unk),
                        id_or(gguf.metadata.think_end_token_id, unk),
                        id_or(gguf.metadata.dsml_token_id, unk),
                    ],
                    bytes: None,
                },
            )
        },
    }
}

fn given_or(id: Option<u32>, unk: u32) -> (r: u32)
    ensures
        r == id_or(id, unk),
{
    match id {
        Some(id) => id,
        None => unk,
    }
}

/// The sentinel of this text opens the text before `rest`, whatever that is.
proof fn lemma_sentinel_opens(i: int, rest: Seq<char>)
    requires
        0 <= i < 7,
    ensures
        special_at(encode_utf8(sentinel(i) + rest)) == Some(i),
{
    reveal_strlit("<｜begin▁of▁sentence｜>");
    reveal_strlit("<｜end▁of▁sentence｜>");
    reveal_strlit("<｜User｜>");
    reveal_strlit("<｜Assistant｜>");
    reveal_strlit("<think>");
    reveal_strlit("</think>");
    reveal_strlit("｜DSML｜");
    let c = sentinel(i) + rest;
    let s = encode_utf8(c);
    law_encode_concat(sentinel(i), rest);
    let own = encode_utf8(sentinel(i));
    assert(own =~= s.subrange(0, own.len() as int));
    assert(opens_with(s, i));
    assert forall|j: int| 0 <= j < 7 && j != i implies !#[trigger] opens_with(s, j) by {
        if opens_with(s, j) {
            law_encoded_prefix(sentinel(j), c);
            let a = sentinel(j);
            assert(a =~= c.subrange(0, a.len() as int));
            assert(a[0] == c[0] && a[1] == c[1] && a[2] == c[2]);
        }
    }
}

proof fn lemma_sentinel_tokens(v: VocabView, i: int, rest: Seq<char>)
    requires
        0 <= i < 7,
    ensures
        tokens_of(v, encode_utf8(sentinel(i) + rest)) == seq![v.specials[i]] + tokens_of(
            v,
            encode_utf8(rest),
        ),
{
    let s = encode_utf8(sentinel(i) + rest);
    encode_utf8_valid_utf8(sentinel(i) + rest);
    lemma_sentinel_opens(i, rest);
    law_sentinel_first(v, s);
    law_encode_concat(sentinel(i), rest);
    assert(s.skip(sentinel_len(i) as int) =~= encode_utf8(rest));
}

/// In the vocabulary of a model file the text of a sentinel, wherever a text opens with it, becomes
/// the one token that the file names for it, or the unknown token where the file names none.
pub proof fn law_file_sentinels(gguf: GgufFile, v: VocabView, rest: Seq<char>)
    requires
        file_vocab(gguf) == Some(v),
    ensures
        ({
            let m = gguf.metadata;
            let after = tokens_of(v, encode_utf8(rest));
            &&& opens_as(v, "<｜begin▁of▁sentence｜>"@ + rest, m.bos_token_id, after)
            &&& opens_as(v, "<｜end▁of▁sentence｜>"@ + rest, m.eos_token_id, after)
            &&& opens_as(v, "<｜User｜>"@ + rest, m.user_token_id, after)
            &&& opens_as(v, "<｜Assistant｜>"@ + rest, m.assistant_token_id, after)
            &&& opens_as(v, "<think>"@ + rest, m.think_start_token_id, after)
            &&& opens_as(v, "</think>"@ + rest, m.think_end_token_id, after)
            &&& opens_as(v, "｜DSML｜"@ + rest, m.dsml_token_id, after)
        }),
{
    let m = gguf.metadata;
    lemma_opens_as(v, 0, rest, m.bos_token_id);
    lemma_opens_as(v, 1, rest, m.eos_token_id);
    lemma_opens_as(v, 2, rest, m.user_token_id);
    lemma_opens_as(v, 3, rest, m.assistant_token_id);
    lemma_opens_as(v, 4, rest, m.think_start_token_id);
    lemma_opens_as(v, 5, rest, m.think_end_token_id);
    lemma_opens_as(v, 6, rest, m.dsml_token_id);
}

/// The text becomes this token, or the unknown one where none is given, and then these tokens.
#[verifier::opaque]
pub open spec fn opens_as(v: VocabView, text: Seq<char>, id: Option<u32>, after: Seq<u32>) -> bool {
    tokens_of(v, encode_utf8(text)) == seq![
        if id is Some {
            id.unwrap()
        } else {
            v.unk
        },
    ] + after
}

proof fn lemma_opens_as(v: VocabView, i: int, rest: Seq<char>, id: Option<u32>)
    requires
        0 <= i < 7,
        v.specials[i] == if id is Some {
            id.unwrap()
        } else {
            v.unk
        },
    ensures
        opens_as(v, sentinel(i) + rest, id, tokens_of(v, encode_utf8(rest))),
{
    reveal(opens_as);
    lemma_sentinel_tokens(v, i, rest);
}

/// No character of the text can begin a sentinel.
pub open spec fn no_sentinel_begins(a: Seq<char>) -> bool {
    forall|k: int| 0 <= k < a.len() ==> #[trigger] a[k] != '<' && a[k] != '｜'
}

proof fn lemma_no_sentinel(c: Seq<char>)
    requires
        c.len() > 0,
        c[0] != '<',
        c[0] != '｜',
    ensures
        special_at(encode_utf8(c)) is None,
{
    reveal_strlit("<｜begin▁of▁sentence｜>");
    reveal_strlit("<｜end▁of▁sentence｜>");
    reveal_strlit("<｜User｜>");
    reveal_strlit("<｜Assistant｜>");
    reveal_strlit("<think>");
    reveal_strlit("</think>");
    reveal_strlit("｜DSML｜");
    let s = encode_utf8(c);
    assert forall|j: int| 0 <= j < 7 implies !#[trigger] opens_with(s, j) by {
        if opens_with(s, j) {
            law_encoded_prefix(sentinel(j), c);
            assert(sentinel(j) =~= c.subrange(0, sentinel(j).len() as int));
            assert(sentinel(j)[0] == c[0]);
        }
    }
}

proof fn lemma_run_ends(a: Seq<char>, b: Seq<char>, k: int)
    requires
        0 <= k <= a.len(),
        no_sentinel_begins(a),
        b.len() == 0 || special_at(encode_utf8(b)) is Some,
        is_char_boundary(encode_utf8(a + b), encode_utf8(a.take(k)).len() as int),
    ensures
        next_special(encode_utf8(a + b), encode_utf8(a.take(k)).len() as int) == encode_utf8(
            a,
        ).len(),
    decreases a.len() - k,
{
    let c = a + b;
    let s = encode_utf8(c);
    let p = encode_utf8(a.take(k)).len() as int;
    law_encode_concat(c.take(k), c.skip(k));
    assert(c.take(k) + c.skip(k) =~= c);
    assert(c.take(k) =~= a.take(k));
    let t = encode_utf8(c.skip(k));
    assert(s.skip(p) =~= t);
    encode_utf8_valid_utf8(c);
    reveal_with_fuel(encode_utf8, 2);
    if k == a.len() {
        assert(a.take(k) =~= a);
        assert(c.skip(k) =~= b);
        if b.len() == 0 {
            assert(t.len() == 0);
            assert(p == s.len());
        } else {
            encode_utf8_first_scalar(b);
            assert(t.len() > 0);
        }
    } else {
        let rest = c.skip(k);
        assert(rest[0] == a[k]);
        lemma_no_sentinel(rest);
        encode_utf8_first_scalar(rest);
        assert(t.len() > 0);
        lemma_next_boundary(s, p);
        assert(lead_len(s[p]) == encode_scalar(a[k] as u32).len());
        let next = a.take(k + 1);
        law_encode_concat(a.take(k), seq![a[k]]);
        assert(a.take(k) + seq![a[k]] =~= next);
        assert(seq![a[k]].drop_first() =~= Seq::<char>::empty());
        assert(encode_utf8(seq![a[k]]) =~= encode_scalar(a[k] as u32));
        assert(encode_utf8(next).len() == p + lead_len(s[p]));
        lemma_run_ends(a, b, k + 1);
    }
}

/// A sentinel inside a text is its own token, wherever it stands: the text before it is tokenized
/// as a text of its own, and so is the text behind it.
pub proof fn law_sentinel_inside(v: VocabView, a: Seq<char>, i: int, rest: Seq<char>)
    requires
        0 <= i < 7,
        no_sentinel_begins(a),
    ensures
        tokens_of(v, encode_utf8(a + sentinel(i) + rest)) == tokens_of(v, encode_utf8(a)) + seq![
            v.specials[i],
        ] + tokens_of(v, encode_utf8(rest)),
{
    let b = sentinel(i) + rest;
    let none = Seq::<char>::empty();
    let s = encode_utf8(a + b);
    let x = encode_utf8(a);
    assert(a + sentinel(i) + rest =~= a + b);
    lemma_sentinel_tokens(v, i, rest);
    lemma_sentinel_opens(i, rest);
    reveal_with_fuel(encode_utf8, 2);
    if a.len() == 0 {
        assert(a + b =~= b);
        assert(x =~= Seq::<u8>::empty());
        assert(tokens_of(v, x) =~= Seq::<u32>::empty());
        assert(tokens_of(v, s) =~= tokens_of(v, x) + seq![v.specials[i]] + tokens_of(
            v,
            encode_utf8(rest),
        ));
    } else {
        encode_utf8_valid_utf8(a + b);
        encode_utf8_valid_utf8(a + none);
        is_char_boundary_start_end_of_seq(s);
        is_char_boundary_start_end_of_seq(encode_utf8(a + none));
        assert(a.take(0) =~= none);
        assert(a + none =~= a);
        lemma_run_ends(a, b, 0);
        lemma_run_ends(a, none, 0);
        assert((a + b)[0] == a[0]);
        lemma_no_sentinel(a + b);
        lemma_no_sentinel(a);
        law_encode_concat(a, b);
        encode_utf8_first_scalar(a);
        let n = x.len() as int;
        assert(n > 0);
        assert(s.take(n) =~= x);
        assert(s.skip(n) =~= encode_utf8(b));
        assert(x.take(n) =~= x);
        assert(x.skip(n) =~= Seq::<u8>::empty());
        let ids = all_piece_ids(v, pieces(x));
        assert(tokens_of(v, x.skip(n)) =~= Seq::<u32>::empty());
        assert(tokens_of(v, x) =~= ids);
        assert(tokens_of(v, s) == ids + tokens_of(v, encode_utf8(b)));
        assert(tokens_of(v, s) =~= tokens_of(v, x) + seq![v.specials[i]] + tokens_of(
            v,
            encode_utf8(rest),
        ));
    }
}

/// What a byte becomes: its own entry where there is a byte table; otherwise the last token that is
/// this byte alone, or the unknown token where there is none.
pub proof fn law_byte_id(v: VocabView, b: u8, id: u32)
    requires
        v.tokens.len() <= u32::MAX,
    ensures
        v.bytes matches Some(map) ==> byte_id(v, b) == map[b as int],
        v.bytes is None && is_last(v.tokens, id) && v.tokens[id as int] == seq![b] ==> byte_id(v, b)
            == id,
        v.bytes is None && !v.tokens.contains(seq![b]) ==> byte_id(v, b) == v.unk,
{
    lemma_last_index(v.tokens, seq![b]);
}

/// Without merges a piece that is a token becomes that token, and any other piece the tokens of its
/// bytes, one for each; with a byte table it is the latter in any case.
pub proof fn law_piece_without_merges(v: VocabView, piece: Seq<u8>, id: u32)
    requires
        v.tokens.len() <= u32::MAX,
        v.merges == Map::<(u32, u32), u32>::empty(),
    ensures
        v.bytes is None && is_last(v.tokens, id) && v.tokens[id as int] == piece ==> piece_ids(
            v,
            piece,
        ) == seq![id],
        v.bytes is Some || !v.tokens.contains(piece) ==> piece_ids(v, piece).len() == piece.len()
            && forall|i: int|
            0 <= i < piece.len() ==> #[trigger] piece_ids(v, piece)[i] == byte_id(v, piece[i]),
{
    lemma_last_index(v.tokens, piece);
}

/// The tokens of pieces are those of each piece by itself, in order.
pub proof fn law_pieces_apart(v: VocabView, p: Seq<Seq<u8>>, q: Seq<Seq<u8>>)
    ensures
        all_piece_ids(v, p + q) == all_piece_ids(v, p) + all_piece_ids(v, q),
        all_piece_ids(v, seq![joined(p)]) == piece_ids(v, joined(p)),
    decreases q.len(),
{
    reveal_with_fuel(all_piece_ids, 2);
    assert(seq![joined(p)].drop_last() =~= Seq::<Seq<u8>>::empty());
    assert(all_piece_ids(v, seq![joined(p)]) =~= piece_ids(v, joined(p)));
    if q.len() == 0 {
        assert(p + q =~= p);
        assert(all_piece_ids(v, p + q) =~= all_piece_ids(v, p) + all_piece_ids(v, q));
    } else {
        law_pieces_apart(v, p, q.drop_last());
        assert((p + q).drop_last() =~= p + q.drop_last());
        assert(all_piece_ids(v, p + q) =~= all_piece_ids(v, p) + all_piece_ids(v, q));
    }
}

/// The character of a hexadecimal digit, in capitals or not.
pub open spec fn spells_digit(c: u8, value: int) -> bool {
    ||| 0 <= value < 10 && c == 48 + value
    ||| 10 <= value < 16 && (c == 65 + (value - 10) || c == 97 + (value - 10))
}

/// A token that a file spells as `<0xHH>` is the one byte of that number, and a token that is
/// spelled without a `<` is what is spelled.
pub proof fn law_spelled_token(s: Seq<u8>, high: int, low: int)
    ensures
        s.len() == 6 && s[0] == '<' as u8 && s[1] == '0' as u8 && s[2] == 'x' as u8 && s[5] == '>' as u8
            && spells_digit(s[3], high) && spells_digit(s[4], low) ==> spelled_token(s) == seq![
            (16 * high + low) as u8,
        ],
        s.len() != 6 || s[0] != '<' as u8 ==> spelled_token(s) == s,
{
}

/// What a file gives a tokenizer: the token of each string under the string's place, the merges
/// that the lines spell, and no byte table.
pub proof fn law_file_vocab(gguf: GgufFile, raw: Seq<String>, lines: Seq<String>)
    requires
        gguf.strings("tokenizer.ggml.tokens"@) == Some(raw),
        gguf.strings("tokenizer.ggml.merges"@) == Some(lines),
        raw.len() > 0,
    ensures
        file_vocab(gguf) matches Some(v) && {
            &&& v.tokens.len() == raw.len()
            &&& forall|i: int|
                0 <= i < raw.len() && !"<"@.is_prefix_of(raw[i]@) ==> #[trigger] v.tokens[i]
                    == encode_utf8(raw[i]@)
            &&& v.merges == merge_ranks(v.tokens, utf8_lines(lines))
            &&& utf8_lines(lines).len() == lines.len()
            &&& forall|i: int|
                0 <= i < lines.len() ==> #[trigger] utf8_lines(lines)[i] == encode_utf8(lines[i]@)
            &&& v.bytes is None
            &&& v.unk == match gguf.number("tokenizer.ggml.unk_token_id"@) {
                Some(id) => id,
                None => 0,
            }
        },
{
    let v = file_vocab(gguf).unwrap();
    assert forall|i: int| 0 <= i < raw.len() && !"<"@.is_prefix_of(raw[i]@) implies #[trigger] v.tokens[i]
        == encode_utf8(raw[i]@) by {
        let s = encode_utf8(raw[i]@);
        if s.len() == 6 && s[0] == 60 {
            reveal_strlit("<");
            is_ascii_chars_encode_utf8("<"@);
            assert(encode_utf8("<"@) =~= s.subrange(0, 1));
            law_encoded_prefix("<"@, raw[i]@);
        }
    }
}

// ---- The tokenizer ----

/// A vocabulary with the index of its tokens.
#[derive(Debug)]
struct Shared {
    vocab: BpeVocab,
    index: TokenIndex,
}

/// Turns text into token ids and back. Clones share the vocabulary.
#[derive(Debug)]
pub struct Ds4Tokenizer {
    shared: Arc<Shared>,
}

/// A symbol in the course of merging.
struct Symbol {
    id: u32,
    bytes: Vec<u8>,
}

impl View for Symbol {
    type V = SymbolView;

    closed spec fn view(&self) -> SymbolView {
        SymbolView { id: self.id, bytes: self.bytes@ }
    }
}

spec fn symbol_views(syms: Seq<Symbol>) -> Seq<SymbolView> {
    syms.map_values(|s: Symbol| s@)
}

impl View for Ds4Tokenizer {
    type V = VocabView;

    closed spec fn view(&self) -> VocabView {
        self.shared.vocab@
    }
}

impl Clone for Ds4Tokenizer {
    fn clone(&self) -> (r: Self)
        ensures
            r@ == self@,
    {
        proof {
            use_type_invariant(self);
        }
        Ds4Tokenizer { shared: Arc::clone(&self.shared) }
    }
}

impl Ds4Tokenizer {
    #[verifier::type_invariant]
    spec fn indexed(&self) -> bool {
        self.shared.index.indexes(self.shared.vocab@.tokens)
    }

    /// A tokenizer over this vocabulary.
    pub fn from_vocab(vocab: BpeVocab) -> (r: Ds4Result<Self>)
        ensures
            r matches Ok(t) && t@ == vocab@,
    {
        let index = TokenIndex::build(&vocab.id_to_token);
        Ok(Ds4Tokenizer { shared: Arc::new(Shared { vocab, index }) })
    }

    /// A byte-level tokenizer, in which byte `b` has the id `byte_to_id[b]`.
    pub fn from_byte_mapping(
        byte_to_id: [u32; 256],
        unk_id: u32,
        bos_id: u32,
        eos_id: u32,
        user_id: u32,
        assistant_id: u32,
        think_start_id: u32,
        think_end_id: u32,
        dsml_id: u32,
    ) -> (r: Ds4Result<Self>)
        ensures
            r matches Ok(t) && t@ == (VocabView {
                tokens: Seq::new(256, |b: int| seq![b as u8]),
                merges: Map::empty(),
                unk: unk_id,
                specials: seq![
                    bos_id,
                    eos_id,
                    user_id,
                    assistant_id,
                    think_start_id,
                    think_end_id,
                    dsml_id,
                ],
                bytes: Some(byte_to_id@),
            }),
    {
        let mut tokens: Vec<Vec<u8>> = Vec::new();
        let mut b: u32 = 0;
        while b < 256
            invariant
                b <= 256,
                tokens@.len() == b,
                forall|i: int| 0 <= i < b ==> (#[trigger] tokens@[i])@ == seq![i as u8],
            decreases 256 - b,
        {
            let mut one: Vec<u8> = Vec::new();
            one.push(b as u8);
            assert(one@ =~= seq![b as u8]);
            tokens.push(one);
            b += 1;
        }
        proof {
            assert(token_bytes(tokens@) =~= Seq::new(256, |b: int| seq![b as u8]));
        }
        Self::from_vocab(
            BpeVocab {
                id_to_token: tokens,
                merges: MergeTable::new(),
                unk_id,
                bos_id,
                eos_id,
                user_id,
                assistant_id,
                think_start_id,
                think_end_id,
                dsml_id,
                byte_to_id: Some(byte_to_id),
            },
        )
    }

    /// The tokenizer of a model file. `None` where the file has no tokens.
    pub fn from_gguf(gguf: &GgufFile) -> (r: Ds4Result<Option<Self>>)
        ensures
            match r {
                Ok(Some(t)) => file_vocab(*gguf) == Some(t@),
                Ok(None) => file_vocab(*gguf) is None,
                Err(_) => false,
            },
    {
        let raw: &Vec<String> = match gguf.array_str("tokenizer.ggml.tokens") {
            Some(raw) => raw,
            None => return Ok(None),
        };
        if raw.len() == 0 {
            return Ok(None);
        }
        let mut tokens: Vec<Vec<u8>> = Vec::new();
        let mut i: usize = 0;
        while i < raw.len()
            invariant
                i <= raw@.len(),
                tokens@.len() == i,
                forall|j: int|
                    0 <= j < i ==> (#[trigger] tokens@[j])@ == spelled_token(encode_utf8(raw@[j]@)),
            decreases raw@.len() - i,
        {
            tokens.push(token_string_to_bytes(raw[i].as_str()));
            i += 1;
        }
        proof {
            assert(token_bytes(tokens@) =~= raw@.map_values(
                |t: String| spelled_token(encode_utf8(t@)),
            ));
        }
        let none: Vec<String> = Vec::new();
        let lines: &Vec<String> = match gguf.array_str("tokenizer.ggml.merges") {
            Some(lines) => lines,
            None => &none,
        };
        proof {
            assert(utf8_lines(none@) =~= Seq::<Seq<u8>>::empty());
        }
        let merges = build_merge_ranks(&tokens, lines);
        let unk: u32 = given_or(gguf_u32(gguf, "tokenizer.ggml.unk_token_id"), 0);
        let vocab = BpeVocab::new(
            tokens,
            merges,
            unk,
            given_or(gguf.metadata.bos_token_id, unk),
            given_or(gguf.metadata.eos_token_id, unk),
            given_or(gguf.metadata.user_token_id, unk),
            given_or(gguf.metadata.assistant_token_id, unk),
            given_or(gguf.metadata.think_start_token_id, unk),
            given_or(gguf.metadata.think_end_token_id, unk),
            given_or(gguf.metadata.dsml_token_id, unk),
        )?;
        let tokenizer = Self::from_vocab(vocab)?;
        Ok(Some(tokenizer))
    }

    /// Number of tokens.
    pub fn vocab_size(&self) -> (n: u32)
        ensures
            n == self@.tokens.len() as u32,
    {
        self.shared.vocab.vocab_size()
    }

    /// The id of what is not in the vocabulary.
    pub fn unk_id(&self) -> (id: u32)
        ensures
            id == self@.unk,
    {
        self.shared.vocab.unk_id
    }

    /// The id of the sentinel that opens a conversation.
    pub fn bos_id(&self) -> (id: u32)
        ensures
            id == self@.specials[0],
    {
        self.shared.vocab.bos_id
    }

    /// The id of the sentinel that ends a turn.
    pub fn eos_id(&self) -> (id: u32)
        ensures
            id == self@.specials[1],
    {
        self.shared.vocab.eos_id
    }

    fn special(&self, text: &str) -> (r: Option<(u32, usize)>)
        ensures
            match special_at(text.spec_bytes()) {
                Some(i) => {
                    &&& r matches Some((id, n))
                    &&& id == self@.specials[i]
                    &&& n == sentinel_len(i)
                },
                None => r is None,
            },
    {
        let v: &BpeVocab = &self.shared.vocab;
        match_special_at(
            text,
            v.bos_id,
            v.eos_id,
            v.user_id,
            v.assistant_id,
            v.think_start_id,
            v.think_end_id,
            v.dsml_id,
        )
    }

    /// Length of the run at the start of `text` in which no sentinel stands.
    fn run_len(&self, text: &str) -> (r: usize)
        ensures
            r == next_special(text.spec_bytes(), 0),
            r <= text.spec_bytes().len(),
            is_char_boundary(text.spec_bytes(), r as int),
    {
        let ghost s = text.spec_bytes();
        proof {
            encode_utf8_valid_utf8(text@);
            is_char_boundary_start_end_of_seq(s);
            lemma_next_special(s, 0);
        }
        let bytes: &[u8] = text.as_bytes();
        let mut end: usize = 0;
        while end < bytes.len()
            invariant
                bytes@ == s,
                s == text.spec_bytes(),
                valid_utf8(s),
                end <= s.len(),
                is_char_boundary(s, end as int),
                next_special(s, end as int) == next_special(s, 0),
            decreases s.len() - end,
        {
            let (_, tail) = text.split_at(end);
            proof {
                assert(s.subrange(end as int, s.len() as int) =~= s.skip(end as int));
            }
            if self.special(tail).is_some() {
                return end;
            }
            proof {
                lemma_next_boundary(s, end as int);
            }
            assert(bytes@.len() == bytes.len());
            end = next_utf8_char(bytes, end);
        }
        end
    }

    /// The ids of a text.
    pub fn tokenize(&self, s: &str) -> (r: Ds4Result<Vec<u32>>)
        ensures
            r matches Ok(ids) && ids@ == tokens_of(self@, s.spec_bytes()),
    {
        let ghost v = self@;
        let ghost whole = tokens_of(v, s.spec_bytes());
        let mut out: Vec<u32> = Vec::new();
        let mut rest: &str = s;
        assert(out@ + whole =~= whole);
        while rest.as_bytes().len() > 0
            invariant
                v == self@,
                out@ + tokens_of(v, rest.spec_bytes()) == whole,
            decreases rest.spec_bytes().len(),
        {
            let ghost t = rest.spec_bytes();
            let ghost before = out@;
            let bytes: &[u8] = rest.as_bytes();
            assert(bytes@.len() == bytes.len());
            proof {
                encode_utf8_valid_utf8(rest@);
                is_char_boundary_start_end_of_seq(t);
                assert(t.skip(0) =~= t);
                lemma_special(t);
                lemma_next_special(t, 0);
            }
            if let Some((id, n)) = self.special(rest) {
                let (_, tail) = rest.split_at(n);
                out.push(id);
                proof {
                    assert(t.subrange(n as int, t.len() as int) =~= t.skip(n as int));
                    assert(out@ + tokens_of(v, tail.spec_bytes()) =~= before + tokens_of(v, t));
                }
                rest = tail;
                continue ;
            }
            let n: usize = self.run_len(rest);
            let (run, tail) = rest.split_at(n);
            let run_pieces: Vec<&str> = pre_tokenize(run);
            let ghost p = pieces(run.spec_bytes());
            let mut k: usize = 0;
            while k < run_pieces.len()
                invariant
                    k <= run_pieces@.len(),
                    v == self@,
                    run_pieces@.len() == p.len(),
                    forall|i: int|
                        0 <= i < p.len() ==> (#[trigger] run_pieces@[i]).spec_bytes() == p[i],
                    out@ == before + all_piece_ids(v, p.take(k as int)),
                decreases run_pieces@.len() - k,
            {
                self.tokenize_piece(run_pieces[k], &mut out);
                proof {
                    let next = p.take(k + 1);
                    assert(next.drop_last() =~= p.take(k as int));
                    assert(next.last() == p[k as int]);
                    assert(out@ =~= before + all_piece_ids(v, next));
                }
                k += 1;
            }
            proof {
                assert(p.take(k as int) =~= p);
                assert(t.subrange(n as int, t.len() as int) =~= t.skip(n as int));
                assert(t.subrange(0, n as int) =~= t.take(n as int));
                assert(out@ + tokens_of(v, tail.spec_bytes()) =~= before + tokens_of(v, t));
            }
            rest = tail;
        }
        assert(out@ =~= whole);
        Ok(out)
    }

    /// The ids of a text in which the chat template has already been applied.
    pub fn tokenize_rendered_chat(&self, s: &str) -> (r: Ds4Result<Vec<u32>>)
        ensures
            r matches Ok(ids) && ids@ == tokens_of(self@, s.spec_bytes()),
    {
        self.tokenize(s)
    }

    fn find(&self, bytes: &[u8]) -> (r: Option<u32>)
        ensures
            r == token_id(self@.tokens, bytes@),
    {
        proof {
            use_type_invariant(self);
        }
        self.shared.index.find(&self.shared.vocab.id_to_token, bytes)
    }

    fn id_of_byte(&self, b: u8) -> (id: u32)
        ensures
            id == byte_id(self@, b),
    {
        match &self.shared.vocab.byte_to_id {
            Some(map) => map[b as usize],
            None => {
                let mut one: Vec<u8> = Vec::new();
                one.push(b);
                assert(one@ =~= seq![b]);
                match self.find(one.as_slice()) {
                    Some(id) => id,
                    None => self.shared.vocab.unk_id,
                }
            },
        }
    }

    fn symbol_of_byte(&self, b: u8) -> (s: Symbol)
        ensures
            s@ == byte_symbol(self@, b),
    {
        let id: u32 = self.id_of_byte(b);
        let tokens: &Vec<Vec<u8>> = &self.shared.vocab.id_to_token;
        let bytes: Vec<u8> = if (id as usize) < tokens.len() {
            let token: &Vec<u8> = &tokens[id as usize];
            let copy: Vec<u8> = copy_bytes(token.as_slice(), 0, token.len());
            assert(copy@ =~= token@);
            copy
        } else {
            let mut one: Vec<u8> = Vec::new();
            one.push(b);
            assert(one@ =~= seq![b]);
            one
        };
        Symbol { id, bytes }
    }

    /// The token that the pair at `i` merges to, with the rank of the pair.
    fn merge_of(&self, syms: &Vec<Symbol>, i: usize) -> (r: Option<(u32, Vec<u8>, u32)>)
        requires
            i + 1 < syms@.len(),
        ensures
            match r {
                Some((id, bytes, rank)) => {
                    &&& mergeable(self@, symbol_views(syms@), i as int)
                    &&& token_id(self@.tokens, bytes@) == Some(id)
                    &&& bytes@ == pair_bytes(symbol_views(syms@), i as int)
                    &&& rank == rank_at(self@, symbol_views(syms@), i as int)
                },
                None => !mergeable(self@, symbol_views(syms@), i as int),
            },
    {
        assert(syms@.len() == syms.len());
        let rank: u32 = match self.shared.vocab.merges.get(syms[i].id, syms[i + 1].id) {
            Some(rank) => rank,
            None => return None,
        };
        let left: &Vec<u8> = &syms[i].bytes;
        let mut bytes: Vec<u8> = copy_bytes(left.as_slice(), 0, left.len());
        put_bytes(&mut bytes, syms[i + 1].bytes.as_slice());
        assert(bytes@ =~= pair_bytes(symbol_views(syms@), i as int));
        match self.find(bytes.as_slice()) {
            Some(id) => Some((id, bytes, rank)),
            None => None,
        }
    }

    /// The pair that merges before all others.
    fn best_pair(&self, syms: &Vec<Symbol>) -> (r: Option<(usize, u32, Vec<u8>)>)
        ensures
            match r {
                Some((i, id, bytes)) => {
                    &&& is_best(self@, symbol_views(syms@), i as int)
                    &&& token_id(self@.tokens, bytes@) == Some(id)
                    &&& bytes@ == pair_bytes(symbol_views(syms@), i as int)
                },
                None => forall|j: int| !#[trigger] mergeable(self@, symbol_views(syms@), j),
            },
    {
        let ghost v = self@;
        let ghost views = symbol_views(syms@);
        let mut best: Option<(usize, u32, Vec<u8>, u32)> = None;
        let mut i: usize = 0;
        while i < syms.len() && syms.len() - i > 1
            invariant
                v == self@,
                views == symbol_views(syms@),
                i <= syms@.len(),
                match best {
                    Some((b, id, bytes, rank)) => {
                        &&& b < i
                        &&& mergeable(v, views, b as int)
                        &&& token_id(v.tokens, bytes@) == Some(id)
                        &&& bytes@ == pair_bytes(views, b as int)
                        &&& rank == rank_at(v, views, b as int)
                        &&& forall|j: int|
                            j < i && #[trigger] mergeable(v, views, j) ==> rank < rank_at(
                                v,
                                views,
                                j,
                            ) || (rank == rank_at(v, views, j) && b <= j)
                    },
                    None => forall|j: int| j < i ==> !#[trigger] mergeable(v, views, j),
                },
            decreases syms@.len() - i,
        {
            if let Some((id, bytes, rank)) = self.merge_of(syms, i) {
                let replace: bool = match &best {
                    Some(b) => rank < b.3,
                    None => true,
                };
                if replace {
                    best = Some((i, id, bytes, rank));
                }
            }
            i += 1;
        }
        match best {
            Some((b, id, bytes, _)) => Some((b, id, bytes)),
            None => None,
        }
    }

    /// Appends the ids of a piece.
    pub fn tokenize_piece(&self, piece: &str, out: &mut Vec<u32>)
        ensures
            final(out)@ == old(out)@ + piece_ids(self@, piece.spec_bytes()),
    {
        let ghost v = self@;
        let ghost s = piece.spec_bytes();
        if self.shared.vocab.merges.is_empty() {
            if self.shared.vocab.byte_to_id.is_none() {
                if let Some(id) = self.find(piece.as_bytes()) {
                    out.push(id);
                    assert(out@ =~= old(out)@ + piece_ids(v, s));
                    return ;
                }
            }
            self.tokenize_piece_without_merges(piece, out);
            return ;
        }
        let bytes: &[u8] = piece.as_bytes();
        let mut syms: Vec<Symbol> = Vec::new();
        let mut i: usize = 0;
        while i < bytes.len()
            invariant
                v == self@,
                bytes@ == s,
                i <= s.len(),
                symbol_views(syms@) == byte_symbols(v, s.take(i as int)),
            decreases s.len() - i,
        {
            let ghost prev = symbol_views(syms@);
            let sym = self.symbol_of_byte(bytes[i]);
            syms.push(sym);
            i += 1;
            proof {
                assert(symbol_views(syms@) =~= prev.push(byte_symbol(v, s[i - 1])));
                assert(byte_symbols(v, s.take(i as int)) =~= byte_symbols(
                    v,
                    s.take(i - 1),
                ).push(byte_symbol(v, s[i - 1])));
            }
        }
        assert(s.take(i as int) =~= s);
        let ghost merged = bpe(v, byte_symbols(v, s));
        loop
            invariant
                v == self@,
                bpe(v, symbol_views(syms@)) == merged,
            ensures
                symbol_views(syms@) == merged,
            decreases syms@.len(),
        {
            let ghost views = symbol_views(syms@);
            match self.best_pair(&syms) {
                Some((k, id, joint)) => {
                    proof {
                        let c = choose|c: int| is_best(v, views, c);
                        assert(is_best(v, views, k as int));
                        assert(is_best(v, views, c));
                        assert(mergeable(v, views, c));
                        assert(c == k);
                    }
                    assert(k + 1 < views.len() && views.len() == syms.len());
                    syms.set(k, Symbol { id, bytes: joint });
                    let _ = syms.remove(k + 1);
                    proof {
                        assert(symbol_views(syms@) =~= merged_at(v, views, k as int));
                    }
                },
                None => {
                    assert(forall|c: int| !is_best(v, views, c));
                    break ;
                },
            }
        }
        let ghost before = out@;
        let mut k: usize = 0;
        while k < syms.len()
            invariant
                k <= syms@.len(),
                symbol_views(syms@) == merged,
                out@ == before + symbol_ids(merged.take(k as int)),
            decreases syms@.len() - k,
        {
            out.push(syms[k].id);
            k += 1;
            assert(merged[k - 1] == syms@[k - 1]@);
            assert(out@ =~= before + symbol_ids(merged.take(k as int)));
        }
        assert(merged.take(k as int) =~= merged);
    }

    /// Appends the ids of the bytes of a piece.
    pub fn tokenize_piece_without_merges(&self, piece: &str, out: &mut Vec<u32>)
        ensures
            final(out)@ == old(out)@ + byte_ids(self@, piece.spec_bytes()),
    {
        let ghost v = self@;
        let ghost before = out@;
        let bytes: &[u8] = piece.as_bytes();
        let mut i: usize = 0;
        while i < bytes.len()
            invariant
                v == self@,
                i <= bytes@.len(),
                out@ == before + byte_ids(v, bytes@.take(i as int)),
            decreases bytes@.len() - i,
        {
            out.push(self.id_of_byte(bytes[i]));
            i += 1;
            assert(out@ =~= before + byte_ids(v, bytes@.take(i as int)));
        }
        assert(bytes@.take(i as int) =~= bytes@);
    }

    /// The bytes of a token.
    fn bytes_of_id(&self, token: u32) -> (r: Ds4Result<Vec<u8>>)
        ensures
            match r {
                Ok(b) => id_bytes(self@, token) == Some(b@),
                Err(e) => id_bytes(self@, token) is None && unknown_id(e, self@, token),
            },
    {
        match &self.shared.vocab.byte_to_id {
            Some(map) => {
                let mut b: usize = 0;
                while b < 256
                    invariant
                        b <= 256,
                        self@.bytes == Some(map@),
                        byte_with_id(map@, token, b as int) == byte_with_id(map@, token, 0),
                    decreases 256 - b,
                {
                    if map[b] == token {
                        let mut one: Vec<u8> = Vec::new();
                        one.push(b as u8);
                        assert(one@ =~= seq![b as u8]);
                        return Ok(one);
                    }
                    b += 1;
                }
                let mut m: String = String::from_str("token id ");
                push_dec(&mut m, token as u64);
                m.append(" is not in the byte fallback vocabulary");
                Err(Ds4Error::new(Ds4ErrorKind::Tokenizer, m))
            },
            None => {
                let tokens: &Vec<Vec<u8>> = &self.shared.vocab.id_to_token;
                if (token as usize) < tokens.len() {
                    let t: &Vec<u8> = &tokens[token as usize];
                    let copy: Vec<u8> = copy_bytes(t.as_slice(), 0, t.len());
                    assert(copy@ =~= t@);
                    return Ok(copy);
                }
                let mut m: String = String::from_str("token id ");
                push_dec(&mut m, token as u64);
                m.append(" is outside vocabulary size ");
                push_dec(&mut m, self.vocab_size() as u64);
                Err(Ds4Error::new(Ds4ErrorKind::Tokenizer, m))
            },
        }
    }

    /// The text of ids. The first id that stands for nothing is reported.
    pub fn detokenize(&self, tokens: &[u32]) -> (r: Ds4Result<String>)
        ensures
            match r {
                Ok(s) => {
                    &&& all_known(self@, tokens@)
                    &&& valid_utf8(decoded(self@, tokens@))
                    &&& s@ == decode_utf8(decoded(self@, tokens@))
                },
                Err(e) => if all_known(self@, tokens@) {
                    !valid_utf8(decoded(self@, tokens@)) && not_text(e, decoded(self@, tokens@))
                } else {
                    exists|i: int|
                        #![trigger tokens@[i]]
                        0 <= i < tokens@.len() && all_known(self@, tokens@.take(i)) && id_bytes(
                            self@,
                            tokens@[i],
                        ) is None && unknown_id(e, self@, tokens@[i])
                },
            },
    {
        let ghost v = self@;
        let mut bytes: Vec<u8> = Vec::new();
        let mut i: usize = 0;
        while i < tokens.len()
            invariant
                v == self@,
                i <= tokens@.len(),
                all_known(v, tokens@.take(i as int)),
                bytes@ == decoded(v, tokens@.take(i as int)),
            decreases tokens@.len() - i,
        {
            let part: Vec<u8> = match self.bytes_of_id(tokens[i]) {
                Ok(part) => part,
                Err(e) => {
                    assert(tokens@[i as int] == tokens[i as int]);
                    return Err(e);
                },
            };
            put_bytes(&mut bytes, part.as_slice());
            proof {
                let next = tokens@.take(i + 1);
                assert(next.drop_last() =~= tokens@.take(i as int));
                assert forall|j: int| 0 <= j < next.len() implies id_bytes(
                    v,
                    #[trigger] next[j],
                ) is Some by {
                    if j < i {
                        assert(next[j] == tokens@.take(i as int)[j]);
                    }
                }
                assert(bytes@ =~= decoded(v, next));
            }
            i += 1;
        }
        assert(tokens@.take(i as int) =~= tokens@);
        match text_of_bytes(bytes) {
            Ok(s) => Ok(s),
            Err(text) => {
                let mut m: String = String::from_str(
                    "decoded token bytes are not valid UTF-8: ",
                );
                m.append(text.as_str());
                Err(Ds4Error::new(Ds4ErrorKind::Tokenizer, m))
            },
        }
    }
}

} // verus!
