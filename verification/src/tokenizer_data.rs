//! Splitting of text into the pieces that the BPE merger works on, and chat sentinels.
//!
//! The shape of the split matters: other pieces lead to other merges even where the bytes are the
//! same. A piece is one of
//!
//!  * up to three ASCII digits,
//!  * a run of CJK ideographs and kana,
//!  * a punctuation character with the ASCII letters after it,
//!  * a run of letters, with at most one leading character that is neither a letter nor a newline
//!    nor punctuation; all non-ASCII characters count as letters,
//!  * a run of punctuation with at most one leading space and all newlines after it,
//!  * white space up to its last newline,
//!  * white space; one space is left to the word or punctuation after it.

use vstd::prelude::*;
use vstd::string::StringSliceAdditionalSpecFns;
use vstd::utf8::{
    codepoint_width_2, codepoint_width_3, codepoint_width_4, decode_first_scalar, encode_scalar,
    encode_utf8, encode_utf8_first_scalar, encode_utf8_valid_utf8, is_char_boundary, is_char_boundary_iff_not_is_continuation_byte,
    is_char_boundary_start_end_of_seq, is_continuation_byte, length_of_first_scalar,
    pop_first_scalar, valid_first_scalar, valid_utf8, valid_utf8_split,
};

use crate::text::law_encode_concat;

verus! {

// ---- Characters ----

/// A letter `A` to `Z` or `a` to `z`.
pub open spec fn alpha(c: u8) -> bool {
    65 <= c <= 90 || 97 <= c <= 122
}

/// A digit `0` to `9`.
pub open spec fn digit(c: u8) -> bool {
    48 <= c <= 57
}

/// Space, tab, line feed, carriage return, vertical tab or form feed.
pub open spec fn space(c: u8) -> bool {
    c == 32 || 9 <= c <= 13
}

/// Line feed or carriage return.
pub open spec fn newline(c: u8) -> bool {
    c == 10 || c == 13
}

/// An ASCII punctuation character or symbol.
pub open spec fn punct(c: u8) -> bool {
    33 <= c <= 47 || 58 <= c <= 64 || 91 <= c <= 96 || 123 <= c <= 126
}

/// The first byte of a letter; all non-ASCII characters are taken for letters.
pub open spec fn letter_like(c: u8) -> bool {
    c >= 128 || alpha(c)
}

/// A CJK ideograph or a kana.
pub open spec fn cjk(cp: u32) -> bool {
    0x4e00 <= cp <= 0x9fa5 || 0x3040 <= cp <= 0x309f || 0x30a0 <= cp <= 0x30ff
}

/// Number of bytes of a character by its first byte.
pub open spec fn lead_len(c: u8) -> nat {
    if c < 0xc0 {
        1
    } else if c < 0xe0 {
        2
    } else if c < 0xf0 {
        3
    } else {
        4
    }
}

/// The code point of the character at `p`, if all of its bytes are there.
pub open spec fn code_point_at(s: Seq<u8>, p: int) -> Option<u32> {
    let n = lead_len(s[p]);
    if p + n > s.len() {
        None
    } else if n == 1 {
        Some(s[p] as u32)
    } else if n == 2 {
        Some(codepoint_width_2(s[p], s[p + 1]))
    } else if n == 3 {
        Some(codepoint_width_3(s[p], s[p + 1], s[p + 2]))
    } else {
        Some(codepoint_width_4(s[p], s[p + 1], s[p + 2], s[p + 3]))
    }
}

/// A CJK ideograph or a kana stands at `p`.
pub open spec fn cjk_at(s: Seq<u8>, p: int) -> bool {
    s[p] >= 128 && (code_point_at(s, p) matches Some(cp) && cjk(cp))
}

/// `true` for a letter `A` to `Z` or `a` to `z`.
pub fn ascii_alpha(c: u8) -> (r: bool)
    ensures
        r == alpha(c),
{
    (c >= 65 && c <= 90) || (c >= 97 && c <= 122)
}

/// `true` for a digit.
pub fn ascii_digit(c: u8) -> (r: bool)
    ensures
        r == digit(c),
{
    c >= 48 && c <= 57
}

/// `true` for white space.
pub fn ascii_space(c: u8) -> (r: bool)
    ensures
        r == space(c),
{
    c == 32 || (c >= 9 && c <= 13)
}

/// `true` for a line feed or a carriage return.
pub fn ascii_newline(c: u8) -> (r: bool)
    ensures
        r == newline(c),
{
    c == 10 || c == 13
}

/// `true` for punctuation and symbols.
pub fn ascii_punct_symbol(c: u8) -> (r: bool)
    ensures
        r == punct(c),
{
    (c >= 33 && c <= 47) || (c >= 58 && c <= 64) || (c >= 91 && c <= 96) || (c >= 123 && c <= 126)
}

/// Number of bytes of a character by its first byte.
pub fn utf8_len_from_first_byte(c: u8) -> (n: usize)
    ensures
        n == lead_len(c),
{
    if c < 0xc0 {
        1
    } else if c < 0xe0 {
        2
    } else if c < 0xf0 {
        3
    } else {
        4
    }
}

/// Position after the character at `pos`.
pub fn next_utf8_char(s: &[u8], pos: usize) -> (r: usize)
    requires
        pos < s@.len(),
        pos + lead_len(s@[pos as int]) <= usize::MAX,
    ensures
        r == pos + lead_len(s@[pos as int]),
{
    pos + utf8_len_from_first_byte(s[pos])
}

/// The code point at `pos` and the position after it, or `None` where bytes are missing.
pub fn utf8_peek_one(s: &[u8], pos: usize) -> (r: Option<(u32, usize)>)
    requires
        pos < s@.len(),
    ensures
        match r {
            Some((cp, next)) => {
                &&& code_point_at(s@, pos as int) == Some(cp)
                &&& next == pos + lead_len(s@[pos as int])
            },
            None => code_point_at(s@, pos as int) is None,
        },
{
    let c0: u8 = s[pos];
    let n: usize = utf8_len_from_first_byte(c0);
    if n > s.len() - pos {
        return None;
    }
    let cp: u32 = if n == 1 {
        c0 as u32
    } else if n == 2 {
        (((c0 & 0x1f) as u32) << 6) | ((s[pos + 1] & 0x3f) as u32)
    } else if n == 3 {
        (((c0 & 0x0f) as u32) << 12) | (((s[pos + 1] & 0x3f) as u32) << 6) | ((s[pos + 2]
            & 0x3f) as u32)
    } else {
        (((c0 & 0x07) as u32) << 18) | (((s[pos + 1] & 0x3f) as u32) << 12) | (((s[pos + 2]
            & 0x3f) as u32) << 6) | ((s[pos + 3] & 0x3f) as u32)
    };
    Some((cp, pos + n))
}

/// `true` for CJK ideographs and kana.
pub fn utf8_is_cjk_hira_kata(cp: u32) -> (r: bool)
    ensures
        r == cjk(cp),
{
    (cp >= 0x4e00 && cp <= 0x9fa5) || (cp >= 0x3040 && cp <= 0x309f) || (cp >= 0x30a0 && cp
        <= 0x30ff)
}

/// `true` if a CJK ideograph or a kana stands at `pos`.
pub fn is_cjk_at(s: &[u8], pos: usize) -> (r: bool)
    requires
        pos < s@.len(),
    ensures
        r == cjk_at(s@, pos as int),
{
    if s[pos] < 128 {
        return false;
    }
    match utf8_peek_one(s, pos) {
        Some((cp, _)) => utf8_is_cjk_hira_kata(cp),
        None => false,
    }
}

/// `true` if a letter stands at `pos`.
pub fn letter_like_at(s: &[u8], pos: usize) -> (r: bool)
    requires
        pos < s@.len(),
    ensures
        r == letter_like(s@[pos as int]),
{
    if s[pos] < 128 {
        return ascii_alpha(s[pos]);
    }
    true
}

// ---- Runs ----

/// Classes of ASCII characters that form runs.
#[derive(Debug, Clone, Copy, PartialEq, Eq, Structural)]
pub enum ByteClass {
    Alpha,
    Punct,
    Newline,
    Space,
}

/// The character is in the class.
pub open spec fn in_class(c: u8, class: ByteClass) -> bool {
    match class {
        ByteClass::Alpha => alpha(c),
        ByteClass::Punct => punct(c),
        ByteClass::Newline => newline(c),
        ByteClass::Space => space(c),
    }
}

/// End of the run of a class that starts at `p`.
pub open spec fn class_end(s: Seq<u8>, p: int, class: ByteClass) -> int
    decreases s.len() - p,
{
    if 0 <= p < s.len() && in_class(s[p], class) {
        class_end(s, p + 1, class)
    } else {
        p
    }
}

/// End of the run of at most `n` digits that starts at `p`.
pub open spec fn digits_end(s: Seq<u8>, p: int, n: nat) -> int
    decreases n,
{
    if n > 0 && 0 <= p < s.len() && digit(s[p]) {
        digits_end(s, p + 1, (n - 1) as nat)
    } else {
        p
    }
}

/// End of the run of letters that starts at `p`.
pub open spec fn letters_end(s: Seq<u8>, p: int) -> int
    decreases (if p <= s.len() { s.len() - p } else { 0 }),
{
    if 0 <= p < s.len() && letter_like(s[p]) {
        letters_end(s, p + lead_len(s[p]))
    } else {
        p
    }
}

/// End of the run of CJK ideographs and kana that starts at `p`.
pub open spec fn cjk_end(s: Seq<u8>, p: int) -> int
    decreases s.len() - p,
{
    if 0 <= p < s.len() && cjk_at(s, p) {
        cjk_end(s, p + lead_len(s[p]))
    } else {
        p
    }
}

/// Position after the last newline before `p`, or 0.
pub open spec fn last_newline_end(s: Seq<u8>, p: int) -> int
    decreases p,
{
    if p <= 0 {
        0
    } else if newline(s[p - 1]) {
        p
    } else {
        last_newline_end(s, p - 1)
    }
}

/// Length of the first piece of a text.
pub open spec fn first_piece(s: Seq<u8>) -> int {
    let c = s[0];
    let next_is_punct = 1 < s.len() && punct(s[1]);
    let next_is_alpha = 1 < s.len() && alpha(s[1]);
    let next_is_letter = 1 < s.len() && letter_like(s[1]);
    if digit(c) {
        digits_end(s, 0, 3)
    } else if cjk_at(s, 0) {
        cjk_end(s, 0)
    } else if punct(c) && next_is_alpha {
        class_end(s, 1, ByteClass::Alpha)
    } else if letter_like(c) {
        letters_end(s, 0)
    } else if !newline(c) && !punct(c) && next_is_letter {
        letters_end(s, 1)
    } else if c == 32 && next_is_punct {
        class_end(s, class_end(s, 1, ByteClass::Punct), ByteClass::Newline)
    } else if punct(c) {
        class_end(s, class_end(s, 0, ByteClass::Punct), ByteClass::Newline)
    } else if space(c) {
        let p = class_end(s, 0, ByteClass::Space);
        let e = last_newline_end(s, p);
        if e > 0 {
            e
        } else if p < s.len() && p > 1 && (letter_like(s[p]) || punct(s[p])) {
            p - 1
        } else {
            p
        }
    } else {
        1
    }
}

/// The pieces of a text in order.
pub open spec fn pieces(s: Seq<u8>) -> Seq<Seq<u8>>
    decreases s.len(),
{
    let n = first_piece(s);
    if s.len() == 0 || !(0 < n <= s.len()) {
        Seq::empty()
    } else {
        seq![s.take(n)] + pieces(s.skip(n))
    }
}

/// The pieces one after the other.
pub open spec fn joined(p: Seq<Seq<u8>>) -> Seq<u8>
    decreases p.len(),
{
    if p.len() == 0 {
        Seq::empty()
    } else {
        p[0] + joined(p.skip(1))
    }
}

// ---- Character boundaries ----

/// The character at a boundary ends at a boundary.
pub proof fn lemma_next_boundary(s: Seq<u8>, i: int)
    requires
        valid_utf8(s),
        is_char_boundary(s, i),
        0 <= i < s.len(),
    ensures
        i + lead_len(s[i]) <= s.len(),
        is_char_boundary(s, i + lead_len(s[i])),
        !is_continuation_byte(s[i]),
        valid_first_scalar(s.skip(i)),
        length_of_first_scalar(s.skip(i)) == lead_len(s[i]),
    decreases s.len(),
{
    reveal_with_fuel(is_char_boundary, 3);
    assert(valid_first_scalar(s));
    let n = length_of_first_scalar(s);
    let tail = pop_first_scalar(s);
    if i == 0 {
        assert(s.skip(0) =~= s);
        assert(n == lead_len(s[0]));
        assert(is_char_boundary(tail, 0));
        assert(is_char_boundary(s, n));
    } else {
        assert(is_char_boundary(tail, i - n));
        assert(i >= n);
        lemma_next_boundary(tail, i - n);
        assert(tail[i - n] == s[i]);
        assert(tail.skip(i - n) =~= s.skip(i));
        assert(is_char_boundary(s, i + lead_len(s[i])));
    }
}

proof fn lemma_class_end(s: Seq<u8>, p: int, class: ByteClass)
    requires
        0 <= p <= s.len(),
    ensures
        p <= class_end(s, p, class) <= s.len(),
        forall|i: int| p <= i < class_end(s, p, class) ==> in_class(#[trigger] s[i], class),
        class_end(s, p, class) < s.len() ==> !in_class(s[class_end(s, p, class)], class),
        p < s.len() && in_class(s[p], class) ==> class_end(s, p, class) > p,
        valid_utf8(s) && is_char_boundary(s, p) ==> is_char_boundary(s, class_end(s, p, class)),
    decreases s.len() - p,
{
    if p < s.len() && in_class(s[p], class) {
        if valid_utf8(s) && is_char_boundary(s, p) {
            lemma_next_boundary(s, p);
        }
        lemma_class_end(s, p + 1, class);
    }
}

proof fn lemma_digits_end(s: Seq<u8>, p: int, n: nat)
    requires
        0 <= p <= s.len(),
    ensures
        p <= digits_end(s, p, n) <= s.len(),
        digits_end(s, p, n) <= p + n,
        forall|i: int| p <= i < digits_end(s, p, n) ==> digit(#[trigger] s[i]),
        digits_end(s, p, n) < p + n && digits_end(s, p, n) < s.len() ==> !digit(
            s[digits_end(s, p, n)],
        ),
        n > 0 && p < s.len() && digit(s[p]) ==> digits_end(s, p, n) > p,
        valid_utf8(s) && is_char_boundary(s, p) ==> is_char_boundary(s, digits_end(s, p, n)),
    decreases n,
{
    if n > 0 && p < s.len() && digit(s[p]) {
        if valid_utf8(s) && is_char_boundary(s, p) {
            lemma_next_boundary(s, p);
        }
        lemma_digits_end(s, p + 1, (n - 1) as nat);
    }
}

proof fn lemma_no_digit_inside(s: Seq<u8>, p: int)
    requires
        valid_utf8(s),
        is_char_boundary(s, p),
        0 <= p < s.len(),
        letter_like(s[p]),
    ensures
        forall|i: int| p <= i < p + lead_len(s[p]) ==> !digit(#[trigger] s[i]),
{
    lemma_next_boundary(s, p);
    let t = s.skip(p);
    assert(t[0] == s[p]);
    assert forall|i: int| p <= i < p + lead_len(s[p]) implies !digit(#[trigger] s[i]) by {
        assert(s[i] == t[i - p]);
    }
}

proof fn lemma_letters_end(s: Seq<u8>, p: int)
    requires
        valid_utf8(s),
        is_char_boundary(s, p),
        0 <= p <= s.len(),
    ensures
        p <= letters_end(s, p) <= s.len(),
        p < s.len() && letter_like(s[p]) ==> letters_end(s, p) > p,
        is_char_boundary(s, letters_end(s, p)),
        forall|i: int| p <= i < letters_end(s, p) ==> !digit(#[trigger] s[i]),
    decreases s.len() - p,
{
    if p < s.len() && letter_like(s[p]) {
        lemma_next_boundary(s, p);
        lemma_no_digit_inside(s, p);
        lemma_letters_end(s, p + lead_len(s[p]));
    }
}

proof fn lemma_cjk_end(s: Seq<u8>, p: int)
    requires
        valid_utf8(s),
        is_char_boundary(s, p),
        0 <= p <= s.len(),
    ensures
        p <= cjk_end(s, p) <= s.len(),
        p < s.len() && cjk_at(s, p) ==> cjk_end(s, p) > p,
        is_char_boundary(s, cjk_end(s, p)),
        forall|i: int| p <= i < cjk_end(s, p) ==> !digit(#[trigger] s[i]),
    decreases s.len() - p,
{
    if p < s.len() && cjk_at(s, p) {
        lemma_next_boundary(s, p);
        lemma_no_digit_inside(s, p);
        lemma_cjk_end(s, p + lead_len(s[p]));
    }
}

proof fn lemma_last_newline_end(s: Seq<u8>, p: int)
    requires
        0 <= p <= s.len(),
    ensures
        0 <= last_newline_end(s, p) <= p,
        last_newline_end(s, p) > 0 ==> newline(s[last_newline_end(s, p) - 1]),
        forall|i: int| last_newline_end(s, p) <= i < p ==> !newline(#[trigger] s[i]),
    decreases p,
{
    if p > 0 && !newline(s[p - 1]) {
        lemma_last_newline_end(s, p - 1);
    }
}

/// The first piece of a text is not empty and ends at a character boundary.
pub proof fn lemma_first_piece(s: Seq<u8>)
    requires
        valid_utf8(s),
        s.len() > 0,
    ensures
        0 < first_piece(s) <= s.len(),
        is_char_boundary(s, first_piece(s)),
        !digit(s[0]) ==> forall|i: int| 0 <= i < first_piece(s) ==> !digit(#[trigger] s[i]),
{
    is_char_boundary_start_end_of_seq(s);
    lemma_next_boundary(s, 0);
    let c = s[0];
    lemma_digits_end(s, 0, 3);
    lemma_cjk_end(s, 0);
    lemma_letters_end(s, 0);
    lemma_class_end(s, 0, ByteClass::Space);
    lemma_class_end(s, 0, ByteClass::Punct);
    lemma_class_end(s, class_end(s, 0, ByteClass::Punct), ByteClass::Newline);
    if c < 128 {
        assert(is_char_boundary(s, 1));
        lemma_class_end(s, 1, ByteClass::Alpha);
        lemma_letters_end(s, 1);
        lemma_class_end(s, 1, ByteClass::Punct);
        lemma_class_end(s, class_end(s, 1, ByteClass::Punct), ByteClass::Newline);
        let p = class_end(s, 0, ByteClass::Space);
        let e = last_newline_end(s, p);
        lemma_last_newline_end(s, p);
        if e > 0 {
            assert(is_char_boundary(s, e)) by {
                is_char_boundary_iff_not_is_continuation_byte(s, e - 1);
                lemma_next_boundary(s, e - 1);
            }
        }
        if p > 1 {
            assert(is_char_boundary(s, p - 1)) by {
                is_char_boundary_iff_not_is_continuation_byte(s, p - 1);
                assert(in_class(s[p - 1], ByteClass::Space));
            }
        }
    }
}

// ---- Laws of the split ----

/// The pieces of a text, one after the other, are the text; none is empty.
pub proof fn law_pieces_partition(s: Seq<u8>)
    requires
        valid_utf8(s),
    ensures
        joined(pieces(s)) == s,
        forall|i: int| 0 <= i < pieces(s).len() ==> (#[trigger] pieces(s)[i]).len() > 0,
        forall|i: int| 0 <= i < pieces(s).len() ==> valid_utf8(#[trigger] pieces(s)[i]),
    decreases s.len(),
{
    if s.len() > 0 {
        lemma_first_piece(s);
        let n = first_piece(s);
        let rest = s.skip(n);
        valid_utf8_split(s, n);
        assert(s.subrange(n, s.len() as int) =~= rest);
        assert(s.subrange(0, n) =~= s.take(n));
        law_pieces_partition(rest);
        assert(pieces(s).skip(1) =~= pieces(rest));
        assert(joined(pieces(s)) =~= s.take(n) + rest);
        assert(s =~= s.take(n) + rest);
        assert forall|i: int| 0 <= i < pieces(s).len() implies (#[trigger] pieces(s)[i]).len() > 0
            && valid_utf8(pieces(s)[i]) by {
            if i > 0 {
                assert(pieces(s)[i] == pieces(rest)[i - 1]);
            }
        }
    }
}

/// A piece that opens with a digit is one to three digits and nothing else, and no other piece
/// holds a digit. Where it has fewer than three, no digit follows it.
pub proof fn law_digit_pieces(s: Seq<u8>, i: int)
    requires
        valid_utf8(s),
        0 <= i < pieces(s).len(),
    ensures
        digit(pieces(s)[i][0]) ==> 1 <= pieces(s)[i].len() <= 3,
        forall|j: int|
            0 <= j < pieces(s)[i].len() ==> digit(#[trigger] pieces(s)[i][j]) == digit(
                pieces(s)[i][0],
            ),
        digit(pieces(s)[i][0]) && pieces(s)[i].len() < 3 && i + 1 < pieces(s).len() ==> !digit(
            pieces(s)[i + 1][0],
        ),
    decreases s.len(),
{
    if s.len() > 0 {
        lemma_first_piece(s);
        let n = first_piece(s);
        let rest = s.skip(n);
        valid_utf8_split(s, n);
        assert(s.subrange(n, s.len() as int) =~= rest);
        if i == 0 {
            lemma_digits_end(s, 0, 3);
            assert(pieces(s)[0] == s.take(n));
            assert(s.take(n)[0] == s[0]);
            assert forall|j: int| 0 <= j < pieces(s)[0].len() implies digit(
                #[trigger] pieces(s)[0][j],
            ) == digit(s[0]) by {
                assert(s.take(n)[j] == s[j]);
            }
            if pieces(s).len() > 1 {
                assert(pieces(s)[1] == pieces(rest)[0]);
                lemma_first_piece(rest);
                assert(pieces(rest)[0][0] == s[n]);
            }
        } else {
            assert(pieces(s)[i] == pieces(rest)[i - 1]);
            law_digit_pieces(rest, i - 1);
            if i + 1 < pieces(s).len() {
                assert(pieces(s)[i + 1] == pieces(rest)[i]);
            }
        }
    }
}

/// All bytes from `from` up to `to` are ASCII letters.
pub open spec fn all_letters(s: Seq<u8>, from: int, to: int) -> bool {
    forall|i: int|
        from <= i < to ==> 'A' as u8 <= #[trigger] s[i] <= 'Z' as u8 || 'a' as u8 <= s[i] <= 'z' as u8
}

/// The byte is an ASCII character that is neither a letter nor a digit, nor white space, nor
/// unprintable.
pub open spec fn is_symbol(c: u8) -> bool {
    &&& '!' as u8 <= c <= '~' as u8
    &&& !('A' as u8 <= c <= 'Z' as u8 || 'a' as u8 <= c <= 'z' as u8 || '0' as u8 <= c <= '9' as u8)
}

/// All bytes from `from` up to `to` are symbols.
pub open spec fn all_symbols(s: Seq<u8>, from: int, to: int) -> bool {
    forall|i: int| from <= i < to ==> is_symbol(#[trigger] s[i])
}

/// All bytes from `from` up to `to` are line feeds or carriage returns.
pub open spec fn all_newlines(s: Seq<u8>, from: int, to: int) -> bool {
    forall|i: int| from <= i < to ==> #[trigger] s[i] == '\n' as u8 || s[i] == '\r' as u8
}

/// All bytes from `from` up to `to` are spaces or tabs.
pub open spec fn all_blanks(s: Seq<u8>, from: int, to: int) -> bool {
    forall|i: int| from <= i < to ==> #[trigger] s[i] == ' ' as u8 || s[i] == '\t' as u8
}

/// An ASCII letter stands at `k`.
pub open spec fn letter_stands(s: Seq<u8>, k: int) -> bool {
    0 <= k < s.len() && all_letters(s, k, k + 1)
}

/// The first piece is the first `k` bytes, and the rest is split as a text of its own.
pub open spec fn splits_at(s: Seq<u8>, k: int) -> bool {
    pieces(s) == seq![s.take(k)] + pieces(s.skip(k))
}

proof fn lemma_class_end_is(s: Seq<u8>, p: int, class: ByteClass, e: int)
    requires
        0 <= p <= e <= s.len(),
        forall|i: int| p <= i < e ==> in_class(#[trigger] s[i], class),
        e < s.len() ==> !in_class(s[e], class),
    ensures
        class_end(s, p, class) == e,
    decreases e - p,
{
    if p < e {
        lemma_class_end_is(s, p + 1, class, e);
    }
}

proof fn lemma_letters_end_is(s: Seq<u8>, p: int, e: int)
    requires
        0 <= p <= e <= s.len(),
        all_letters(s, p, e),
        e < s.len() ==> s[e] < 128 && !letter_stands(s, e),
    ensures
        letters_end(s, p) == e,
    decreases e - p,
{
    if p < e {
        assert(letter_like(s[p]) && lead_len(s[p]) == 1);
        lemma_letters_end_is(s, p + 1, e);
    } else if e < s.len() {
        assert(!letter_like(s[e])) by {
            if alpha(s[e]) {
                assert(all_letters(s, e, e + 1));
            }
        }
    }
}

/// A word of ASCII letters that an ASCII character ends is a piece; so is a word with one space or
/// tab before it, and a word with one symbol before it.
pub proof fn law_word_is_a_piece(s: Seq<u8>, from: int, k: int)
    requires
        from == 0 || from == 1,
        from < k <= s.len(),
        all_letters(s, from, k),
        k < s.len() ==> s[k] < 128 && !letter_stands(s, k),
        from == 1 ==> all_blanks(s, 0, 1) || all_symbols(s, 0, 1),
    ensures
        splits_at(s, k),
{
    assert(s[from] == s[from]);
    lemma_letters_end_is(s, from, k);
    assert forall|i: int| from <= i < k implies in_class(#[trigger] s[i], ByteClass::Alpha) by {}
    if k < s.len() {
        assert(!in_class(s[k], ByteClass::Alpha)) by {
            if alpha(s[k]) {
                assert(all_letters(s, k, k + 1));
            }
        }
    }
    lemma_class_end_is(s, from, ByteClass::Alpha, k);
    assert(s[0] == s[0]);
    assert(first_piece(s) == k);
}

/// A run of symbols, with the newlines that follow it and with one space before it where there is
/// one, is a piece. Without a space before it the first symbol must not stand before a letter.
pub proof fn law_symbols_are_a_piece(s: Seq<u8>, from: int, mid: int, k: int)
    requires
        from == 0 || from == 1,
        from < mid <= k <= s.len(),
        from == 1 ==> s[0] == ' ' as u8,
        from == 0 ==> !letter_stands(s, 1),
        all_symbols(s, from, mid),
        all_newlines(s, mid, k),
        mid < s.len() ==> !is_symbol(s[mid]),
        k < s.len() ==> s[k] != '\n' as u8 && s[k] != '\r' as u8,
    ensures
        splits_at(s, k),
{
    assert forall|i: int| from <= i < mid implies in_class(#[trigger] s[i], ByteClass::Punct) by {}
    lemma_class_end_is(s, from, ByteClass::Punct, mid);
    assert forall|i: int| mid <= i < k implies in_class(#[trigger] s[i], ByteClass::Newline) by {}
    lemma_class_end_is(s, mid, ByteClass::Newline, k);
    assert(is_symbol(s[from]));
    if from == 0 && 1 < s.len() && alpha(s[1]) {
        assert(all_letters(s, 1, 2));
    }
    assert(first_piece(s) == k);
}

/// White space that holds a newline is a piece up to its last newline.
pub proof fn law_lines_are_a_piece(s: Seq<u8>, k: int, e: int)
    requires
        0 < k <= e <= s.len(),
        forall|i: int|
            0 <= i < k ==> #[trigger] s[i] == ' ' as u8 || s[i] == '\t' as u8 || s[i] == '\n' as u8
                || s[i] == '\r' as u8,
        all_newlines(s, k - 1, k),
        all_blanks(s, k, e),
        e < s.len() ==> !space(s[e]),
    ensures
        splits_at(s, k),
{
    assert(s[k - 1] == '\n' as u8 || s[k - 1] == '\r' as u8);
    assert forall|i: int| 0 <= i < e implies in_class(#[trigger] s[i], ByteClass::Space) by {
        assert(i < k ==> s[i] == s[i]);
    }
    lemma_class_end_is(s, 0, ByteClass::Space, e);
    lemma_last_newline_end(s, e);
    let l = last_newline_end(s, e);
    assert(l == k) by {
        if l < k {
            assert(!newline(s[k - 1]));
        } else if l > k {
            assert(newline(s[l - 1]));
            assert(s[l - 1] == ' ' as u8 || s[l - 1] == '\t' as u8);
        }
    }
    assert(in_class(s[0], ByteClass::Space));
    if 1 < e {
        assert(in_class(s[1], ByteClass::Space));
    }
    if e == 1 {
        assert(newline(s[0]));
    }
    assert(first_piece(s) == k);
}

/// Blanks without a newline are a piece. Where a letter or a symbol follows several of them, the
/// last one is left to it.
pub proof fn law_blanks_are_a_piece(s: Seq<u8>, k: int)
    requires
        2 <= k <= s.len(),
        all_blanks(s, 0, k),
        k < s.len() ==> !space(s[k]),
    ensures
        k == s.len() ==> splits_at(s, k),
        k < s.len() && (letter_stands(s, k) || is_symbol(s[k])) ==> splits_at(s, k - 1),
        k < s.len() && '0' as u8 <= s[k] <= '9' as u8 ==> splits_at(s, k),
{
    assert forall|i: int| 0 <= i < k implies in_class(#[trigger] s[i], ByteClass::Space)
        && !newline(s[i]) by {}
    lemma_class_end_is(s, 0, ByteClass::Space, k);
    lemma_last_newline_end(s, k);
    let l = last_newline_end(s, k);
    assert(l == 0) by {
        if l > 0 {
            assert(newline(s[l - 1]));
            assert(in_class(s[l - 1], ByteClass::Space) && !newline(s[l - 1]));
        }
    }
    assert(in_class(s[0], ByteClass::Space) && in_class(s[1], ByteClass::Space));
    if k < s.len() && letter_stands(s, k) {
        assert(s[k] == s[k]);
        assert(letter_like(s[k]));
    }
}

/// A CJK ideograph, a Hiragana or a Katakana.
pub open spec fn is_cjk(c: char) -> bool {
    0x4e00 <= c as u32 <= 0x9fa5 || 0x3040 <= c as u32 <= 0x309f || 0x30a0 <= c as u32 <= 0x30ff
}

/// An ASCII letter or a character outside ASCII.
pub open spec fn is_letter(c: char) -> bool {
    'A' as u32 <= c as u32 <= 'Z' as u32 || 'a' as u32 <= c as u32 <= 'z' as u32 || c as u32 >= 128
}

/// The character with number `k` begins where the bytes of those before it end, and its first byte
/// tells how long it is and, below 128, which one it is.
proof fn lemma_char_at(c: Seq<char>, k: int)
    requires
        0 <= k < c.len(),
        is_char_boundary(encode_utf8(c), encode_utf8(c.take(k)).len() as int),
    ensures
        ({
            let s = encode_utf8(c);
            let p = encode_utf8(c.take(k)).len() as int;
            &&& 0 <= p < s.len()
            &&& encode_utf8(c.take(k + 1)).len() == p + lead_len(s[p])
            &&& is_char_boundary(s, p + lead_len(s[p]))
            &&& s[p] >= 128 <==> c[k] as u32 >= 128
            &&& s[p] < 128 ==> s[p] == c[k] as u32
            &&& s[p] >= 128 ==> code_point_at(s, p) == Some(c[k] as u32)
        }),
{
    let s = encode_utf8(c);
    let p = encode_utf8(c.take(k)).len() as int;
    let rest = c.skip(k);
    let t = encode_utf8(rest);
    law_encode_concat(c.take(k), rest);
    assert(c.take(k) + rest =~= c);
    assert(s.skip(p) =~= t);
    reveal_with_fuel(encode_utf8, 2);
    encode_utf8_valid_utf8(c);
    encode_utf8_first_scalar(rest);
    assert(rest[0] == c[k]);
    assert(t.len() > 0);
    lemma_next_boundary(s, p);
    let n = lead_len(s[p]) as int;
    assert(encode_scalar(c[k] as u32).len() == n);
    law_encode_concat(c.take(k), seq![c[k]]);
    assert(c.take(k) + seq![c[k]] =~= c.take(k + 1));
    assert(seq![c[k]].drop_first() =~= Seq::<char>::empty());
    assert(encode_utf8(seq![c[k]]) =~= encode_scalar(c[k] as u32));
    assert(t[0] == s[p]);
    assert(n > 1 ==> t[1] == s[p + 1]);
    assert(n > 2 ==> t[2] == s[p + 2]);
    assert(n > 3 ==> t[3] == s[p + 3]);
    assert(decode_first_scalar(t) == c[k] as u32);
    if n == 1 {
        let v = c[k] as u32;
        assert((v & 0x7F) as u8 == v) by (bit_vector)
            requires
                v <= 0x7F,
        ;
    }
}

proof fn lemma_cjk_end_is(c: Seq<char>, k: int, m: int)
    requires
        0 <= k <= m <= c.len(),
        forall|i: int| k <= i < m ==> is_cjk(#[trigger] c[i]),
        m < c.len() ==> !is_cjk(c[m]),
        is_char_boundary(encode_utf8(c), encode_utf8(c.take(k)).len() as int),
    ensures
        cjk_end(encode_utf8(c), encode_utf8(c.take(k)).len() as int) == encode_utf8(
            c.take(m),
        ).len(),
    decreases m - k,
{
    if k < c.len() {
        lemma_char_at(c, k);
        if k < m {
            assert(is_cjk(c[k]));
            lemma_cjk_end_is(c, k + 1, m);
        }
    } else {
        assert(c.take(k) =~= c);
    }
}

proof fn lemma_word_end_is(c: Seq<char>, k: int, m: int)
    requires
        0 <= k <= m <= c.len(),
        forall|i: int| k <= i < m ==> is_letter(#[trigger] c[i]),
        m < c.len() ==> !is_letter(c[m]),
        is_char_boundary(encode_utf8(c), encode_utf8(c.take(k)).len() as int),
    ensures
        letters_end(encode_utf8(c), encode_utf8(c.take(k)).len() as int) == encode_utf8(
            c.take(m),
        ).len(),
    decreases m - k,
{
    if k < c.len() {
        lemma_char_at(c, k);
        if k < m {
            assert(is_letter(c[k]));
            lemma_word_end_is(c, k + 1, m);
        }
    } else {
        assert(c.take(k) =~= c);
    }
}

/// A run of CJK ideographs and kana is a piece.
pub proof fn law_cjk_run_is_a_piece(c: Seq<char>, m: int)
    requires
        0 < m <= c.len(),
        forall|i: int| 0 <= i < m ==> is_cjk(#[trigger] c[i]),
        m < c.len() ==> !is_cjk(c[m]),
    ensures
        splits_at(encode_utf8(c), encode_utf8(c.take(m)).len() as int),
{
    let s = encode_utf8(c);
    encode_utf8_valid_utf8(c);
    is_char_boundary_start_end_of_seq(s);
    assert(c.take(0) =~= Seq::<char>::empty());
    assert(encode_utf8(c.take(0)).len() == 0);
    lemma_char_at(c, 0);
    assert(is_cjk(c[0]));
    lemma_cjk_end_is(c, 0, m);
    lemma_first_piece(s);
}

/// A run of letters is a piece, also where some of them are outside ASCII; only one that begins
/// with a CJK ideograph or a kana ends behind the last of these.
pub proof fn law_letters_are_a_piece(c: Seq<char>, m: int)
    requires
        0 < m <= c.len(),
        forall|i: int| 0 <= i < m ==> is_letter(#[trigger] c[i]),
        !is_cjk(c[0]),
        m < c.len() ==> !is_letter(c[m]),
    ensures
        splits_at(encode_utf8(c), encode_utf8(c.take(m)).len() as int),
{
    let s = encode_utf8(c);
    encode_utf8_valid_utf8(c);
    is_char_boundary_start_end_of_seq(s);
    assert(c.take(0) =~= Seq::<char>::empty());
    assert(encode_utf8(c.take(0)).len() == 0);
    lemma_char_at(c, 0);
    assert(is_letter(c[0]));
    lemma_word_end_is(c, 0, m);
    lemma_first_piece(s);
}

/// Digits are pieces of three, and what is left of fewer.
pub proof fn law_digits_are_a_piece(s: Seq<u8>, k: int)
    requires
        1 <= k <= 3,
        k <= s.len(),
        forall|i: int| 0 <= i < k ==> '0' as u8 <= #[trigger] s[i] <= '9' as u8,
        k < 3 && k < s.len() ==> !('0' as u8 <= s[k] <= '9' as u8),
    ensures
        splits_at(s, k),
{
    lemma_digits_end(s, 0, 3);
    let e = digits_end(s, 0, 3);
    if e < k {
        assert(!digit(s[e]));
        assert('0' as u8 <= s[e] <= '9' as u8);
    } else if e > k {
        assert(digit(s[k]));
    }
    assert(digit(s[0]));
}

// ---- The split ----

/// End of the run of letters that starts at `pos`.
pub fn consume_letters(s: &[u8], pos: usize) -> (r: usize)
    requires
        valid_utf8(s@),
        is_char_boundary(s@, pos as int),
        pos <= s@.len(),
    ensures
        r == letters_end(s@, pos as int),
        pos <= r <= s@.len(),
{
    let mut p: usize = pos;
    while p < s.len() && letter_like_at(s, p)
        invariant
            valid_utf8(s@),
            pos <= p <= s@.len(),
            is_char_boundary(s@, p as int),
            letters_end(s@, p as int) == letters_end(s@, pos as int),
        decreases s@.len() - p,
    {
        proof {
            lemma_next_boundary(s@, p as int);
        }
        assert(s@.len() == s.len());
        p = next_utf8_char(s, p);
    }
    p
}

fn consume_cjk(s: &[u8]) -> (r: usize)
    requires
        valid_utf8(s@),
        s@.len() > 0,
    ensures
        r == cjk_end(s@, 0),
{
    let mut p: usize = 0;
    proof {
        is_char_boundary_start_end_of_seq(s@);
    }
    while p < s.len() && is_cjk_at(s, p)
        invariant
            valid_utf8(s@),
            p <= s@.len(),
            is_char_boundary(s@, p as int),
            cjk_end(s@, p as int) == cjk_end(s@, 0),
        decreases s@.len() - p,
    {
        proof {
            lemma_next_boundary(s@, p as int);
        }
        assert(s@.len() == s.len());
        p = next_utf8_char(s, p);
    }
    p
}

fn byte_in_class(c: u8, class: ByteClass) -> (r: bool)
    ensures
        r == in_class(c, class),
{
    match class {
        ByteClass::Alpha => ascii_alpha(c),
        ByteClass::Punct => ascii_punct_symbol(c),
        ByteClass::Newline => ascii_newline(c),
        ByteClass::Space => ascii_space(c),
    }
}

fn consume_class(s: &[u8], pos: usize, class: ByteClass) -> (r: usize)
    requires
        pos <= s@.len(),
    ensures
        r == class_end(s@, pos as int, class),
        pos <= r <= s@.len(),
{
    let mut p: usize = pos;
    while p < s.len() && byte_in_class(s[p], class)
        invariant
            pos <= p <= s@.len(),
            class_end(s@, p as int, class) == class_end(s@, pos as int, class),
        decreases s@.len() - p,
    {
        p += 1;
    }
    p
}

fn consume_digits(s: &[u8]) -> (r: usize)
    ensures
        r == digits_end(s@, 0, 3),
{
    let mut p: usize = 0;
    while p < s.len() && ascii_digit(s[p]) && p < 3
        invariant
            p <= s@.len(),
            p <= 3,
            digits_end(s@, p as int, (3 - p) as nat) == digits_end(s@, 0, 3),
        decreases s@.len() - p,
    {
        p += 1;
    }
    p
}

fn newline_end(s: &[u8], end: usize) -> (r: usize)
    requires
        end <= s@.len(),
    ensures
        r == last_newline_end(s@, end as int),
{
    let mut p: usize = end;
    while p > 0
        invariant
            p <= end <= s@.len(),
            last_newline_end(s@, p as int) == last_newline_end(s@, end as int),
        decreases p,
    {
        if ascii_newline(s[p - 1]) {
            return p;
        }
        p -= 1;
    }
    0
}

/// Length of the first piece of a text.
pub fn piece_len(s: &[u8]) -> (r: usize)
    requires
        valid_utf8(s@),
        s@.len() > 0,
    ensures
        r == first_piece(s@),
        0 < r <= s@.len(),
        is_char_boundary(s@, r as int),
{
    let c: u8 = s[0];
    let more: bool = 1 < s.len();
    proof {
        lemma_first_piece(s@);
        is_char_boundary_start_end_of_seq(s@);
        lemma_next_boundary(s@, 0);
        assert(c < 128 ==> is_char_boundary(s@, 1));
    }
    if ascii_digit(c) {
        consume_digits(s)
    } else if is_cjk_at(s, 0) {
        consume_cjk(s)
    } else if ascii_punct_symbol(c) && more && ascii_alpha(s[1]) {
        consume_class(s, 1, ByteClass::Alpha)
    } else if letter_like_at(s, 0) {
        consume_letters(s, 0)
    } else if !ascii_newline(c) && !ascii_punct_symbol(c) && more && letter_like_at(s, 1) {
        consume_letters(s, 1)
    } else if c == 32 && more && ascii_punct_symbol(s[1]) {
        let p: usize = consume_class(s, 1, ByteClass::Punct);
        consume_class(s, p, ByteClass::Newline)
    } else if ascii_punct_symbol(c) {
        let p: usize = consume_class(s, 0, ByteClass::Punct);
        consume_class(s, p, ByteClass::Newline)
    } else if ascii_space(c) {
        let p: usize = consume_class(s, 0, ByteClass::Space);
        let e: usize = newline_end(s, p);
        if e > 0 {
            e
        } else if p < s.len() && p > 1 && (letter_like_at(s, p) || ascii_punct_symbol(s[p])) {
            p - 1
        } else {
            p
        }
    } else {
        utf8_len_from_first_byte(c)
    }
}

/// Splits a text into pieces.
pub fn pre_tokenize(text: &str) -> (r: Vec<&str>)
    ensures
        r@.len() == pieces(text.spec_bytes()).len(),
        forall|i: int|
            0 <= i < r@.len() ==> (#[trigger] r@[i]).spec_bytes() == pieces(text.spec_bytes())[i],
{
    let ghost whole = text.spec_bytes();
    let mut out: Vec<&str> = Vec::new();
    let mut rest: &str = text;
    proof {
        assert(pieces(whole) =~= Seq::<Seq<u8>>::empty() + pieces(whole));
    }
    while rest.as_bytes().len() > 0
        invariant
            out@.len() + pieces(rest.spec_bytes()).len() == pieces(whole).len(),
            forall|i: int|
                0 <= i < out@.len() ==> (#[trigger] out@[i]).spec_bytes() == pieces(whole)[i],
            forall|i: int|
                0 <= i < pieces(rest.spec_bytes()).len() ==> #[trigger] pieces(rest.spec_bytes())[i]
                    == pieces(whole)[out@.len() + i],
        decreases rest.spec_bytes().len(),
    {
        let ghost s = rest.spec_bytes();
        proof {
            encode_utf8_valid_utf8(rest@);
        }
        let bytes: &[u8] = rest.as_bytes();
        assert(bytes@.len() == bytes.len());
        let n: usize = piece_len(bytes);
        let (piece, tail) = rest.split_at(n);
        proof {
            assert(s.subrange(0, n as int) =~= s.take(n as int));
            assert(s.subrange(n as int, s.len() as int) =~= s.skip(n as int));
            assert(pieces(s) == seq![s.take(n as int)] + pieces(s.skip(n as int)));
            assert(pieces(s)[0] == piece.spec_bytes());
            assert forall|i: int| 0 <= i < pieces(tail.spec_bytes()).len() implies #[trigger] pieces(
                tail.spec_bytes(),
            )[i] == pieces(whole)[out@.len() + 1 + i] by {
                assert(pieces(s)[i + 1] == pieces(tail.spec_bytes())[i]);
            }
        }
        out.push(piece);
        rest = tail;
    }
    out
}

// ---- Chat sentinels ----

/// The sentinel that opens a conversation.
pub const BEGIN_SENTENCE: &'static str = "<｜begin▁of▁sentence｜>";

/// The sentinel that ends a turn.
pub const END_SENTENCE: &'static str = "<｜end▁of▁sentence｜>";

/// The sentinel before what the user says.
pub const USER: &'static str = "<｜User｜>";

/// The sentinel before what the assistant says.
pub const ASSISTANT: &'static str = "<｜Assistant｜>";

/// The sentinel that opens visible reasoning.
pub const THINK_START: &'static str = "<think>";

/// The sentinel that ends visible reasoning.
pub const THINK_END: &'static str = "</think>";

/// The sentinel of the markup language.
pub const DSML: &'static str = "｜DSML｜";

/// The sentinels in the order in which they are tried.
pub open spec fn sentinel(i: int) -> Seq<char> {
    if i == 0 {
        BEGIN_SENTENCE@
    } else if i == 1 {
        END_SENTENCE@
    } else if i == 2 {
        USER@
    } else if i == 3 {
        ASSISTANT@
    } else if i == 4 {
        THINK_START@
    } else if i == 5 {
        THINK_END@
    } else {
        DSML@
    }
}

/// The sentinel with this number opens the text.
pub open spec fn opens_with(s: Seq<u8>, i: int) -> bool {
    encode_utf8(sentinel(i)).is_prefix_of(s)
}

/// The number of the first sentinel that opens the text.
pub open spec fn special_at(s: Seq<u8>) -> Option<int> {
    if opens_with(s, 0) {
        Some(0)
    } else if opens_with(s, 1) {
        Some(1)
    } else if opens_with(s, 2) {
        Some(2)
    } else if opens_with(s, 3) {
        Some(3)
    } else if opens_with(s, 4) {
        Some(4)
    } else if opens_with(s, 5) {
        Some(5)
    } else if opens_with(s, 6) {
        Some(6)
    } else {
        None
    }
}

/// Number of bytes of a sentinel.
pub open spec fn sentinel_len(i: int) -> nat {
    encode_utf8(sentinel(i)).len()
}

fn starts_with(s: &[u8], prefix: &[u8]) -> (r: bool)
    ensures
        r == prefix@.is_prefix_of(s@),
{
    if prefix.len() > s.len() {
        return false;
    }
    let mut i: usize = 0;
    while i < prefix.len()
        invariant
            i <= prefix@.len() <= s@.len(),
            forall|j: int| 0 <= j < i ==> prefix@[j] == s@[j],
        decreases prefix@.len() - i,
    {
        if prefix[i] != s[i] {
            return false;
        }
        i += 1;
    }
    assert(prefix@ =~= s@.subrange(0, prefix@.len() as int));
    true
}

/// The sentinel that opens `text`: its token and its length in bytes.
pub fn match_special_at(
    text: &str,
    bos: u32,
    eos: u32,
    user: u32,
    assistant: u32,
    think_start: u32,
    think_end: u32,
    dsml: u32,
) -> (r: Option<(u32, usize)>)
    ensures
        match special_at(text.spec_bytes()) {
            Some(i) => {
                &&& r matches Some((id, n))
                &&& id == seq![bos, eos, user, assistant, think_start, think_end, dsml][i]
                &&& n == sentinel_len(i)
            },
            None => r is None,
        },
{
    let s: &[u8] = text.as_bytes();
    if starts_with(s, BEGIN_SENTENCE.as_bytes()) {
        return Some((bos, BEGIN_SENTENCE.as_bytes().len()));
    }
    if starts_with(s, END_SENTENCE.as_bytes()) {
        return Some((eos, END_SENTENCE.as_bytes().len()));
    }
    if starts_with(s, USER.as_bytes()) {
        return Some((user, USER.as_bytes().len()));
    }
    if starts_with(s, ASSISTANT.as_bytes()) {
        return Some((assistant, ASSISTANT.as_bytes().len()));
    }
    if starts_with(s, THINK_START.as_bytes()) {
        return Some((think_start, THINK_START.as_bytes().len()));
    }
    if starts_with(s, THINK_END.as_bytes()) {
        return Some((think_end, THINK_END.as_bytes().len()));
    }
    if starts_with(s, DSML.as_bytes()) {
        return Some((dsml, DSML.as_bytes().len()));
    }
    None
}

} // verus!
