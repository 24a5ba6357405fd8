//! Decimal, hexadecimal and list rendering used in diagnostics, and white space.

use vstd::prelude::*;
use vstd::string::{StrSliceExecFns, StringExecFns};
use vstd::utf8::{
    char_u32_cast, encode_scalar, encode_utf8, encode_utf8_first_scalar, length_of_first_scalar,
};

verus! {

/// `String::push` puts one character at the end of the string and changes nothing else.
pub assume_specification[ String::push ](s: &mut String, c: char)
    ensures
        final(s)@ == old(s)@.push(c),
;

/// How a text is shown between quotes, as `str`'s `Debug` does it.
pub uninterp spec fn quoted(s: Seq<char>) -> Seq<char>;

/// Shows a text between quotes. `Debug` of `str` puts the text between double quotes with special
/// characters escaped, and its result depends on the text alone.
#[verifier::external_body]
pub(crate) fn quote(s: &str) -> (r: String)
    ensures
        r@ == quoted(s@),
{
    format!("{s:?}")
}

/// The character of a decimal or lower-case hexadecimal digit.
pub open spec fn digit_char(d: nat) -> char {
    if d < 10 {
        (48 + d) as char
    } else {
        (87 + d) as char
    }
}

/// `n` in decimal, without leading zeros.
pub open spec fn dec(n: nat) -> Seq<char>
    decreases n,
{
    if n < 10 {
        seq![digit_char(n)]
    } else {
        dec(n / 10).push(digit_char(n % 10))
    }
}

/// `n` in lower-case hexadecimal, without leading zeros.
pub open spec fn hex(n: nat) -> Seq<char>
    decreases n,
{
    if n < 16 {
        seq![digit_char(n)]
    } else {
        hex(n / 16).push(digit_char(n % 16))
    }
}

/// `i` in decimal, with a leading `-` when it is negative.
pub open spec fn dec_int(i: int) -> Seq<char> {
    if i < 0 {
        seq!['-'] + dec((-i) as nat)
    } else {
        dec(i as nat)
    }
}

/// `n` in hexadecimal, filled up with zeros on the left to `width` digits.
pub open spec fn hex_padded(n: nat, width: nat) -> Seq<char> {
    let digits = hex(n);
    if digits.len() < width {
        Seq::new((width - digits.len()) as nat, |i: int| '0') + digits
    } else {
        digits
    }
}

/// The elements of `s` in decimal, separated by `, `.
pub open spec fn dec_items(s: Seq<u32>) -> Seq<char>
    decreases s.len(),
{
    if s.len() == 0 {
        Seq::empty()
    } else if s.len() == 1 {
        dec(s[0] as nat)
    } else {
        dec_items(s.drop_last()) + ", "@ + dec(s.last() as nat)
    }
}

/// `s` as a bracketed list, as in `[2, 3]`.
pub open spec fn dec_list(s: Seq<u32>) -> Seq<char> {
    "["@ + dec_items(s) + "]"@
}

/// Appends `n` in decimal.
pub fn push_dec(out: &mut String, n: u64)
    ensures
        final(out)@ == old(out)@ + dec(n as nat),
    decreases n,
{
    if n >= 10 {
        push_dec(out, n / 10);
    }
    let d: u8 = (n % 10) as u8;
    out.push((48 + d) as char);
    assert(out@ =~= old(out)@ + dec(n as nat));
}

/// Appends `n` in hexadecimal.
pub fn push_hex(out: &mut String, n: u64)
    ensures
        final(out)@ == old(out)@ + hex(n as nat),
    decreases n,
{
    if n >= 16 {
        push_hex(out, n / 16);
    }
    let d: u8 = (n % 16) as u8;
    out.push(if d < 10 { (48 + d) as char } else { (87 + d) as char });
    assert(out@ =~= old(out)@ + hex(n as nat));
}

/// Appends `i` in decimal.
pub fn push_dec_int(out: &mut String, i: i32)
    ensures
        final(out)@ == old(out)@ + dec_int(i as int),
{
    if i < 0 {
        out.push('-');
        push_dec(out, (-(i as i64)) as u64);
    } else {
        push_dec(out, i as u64);
    }
}

/// Appends `n` in hexadecimal with at least `width` digits.
pub fn push_hex_padded(out: &mut String, n: u64, width: usize)
    ensures
        final(out)@ == old(out)@ + hex_padded(n as nat, width as nat),
{
    let mut digits: String = String::new();
    push_hex(&mut digits, n);
    proof {
        assert(digits@ =~= hex(n as nat));
    }
    let have: usize = digits.as_str().unicode_len();
    let mut filled: usize = have;
    while filled < width
        invariant
            have <= filled,
            have <= width ==> filled <= width,
            have > width ==> filled == have,
            out@ == old(out)@ + Seq::new((filled - have) as nat, |i: int| '0'),
        decreases width - filled,
    {
        out.push('0');
        filled += 1;
        assert(out@ =~= old(out)@ + Seq::new((filled - have) as nat, |i: int| '0'));
    }
    out.append(digits.as_str());
    assert(out@ =~= old(out)@ + hex_padded(n as nat, width as nat));
}

/// Appends `items` as a bracketed list.
pub fn push_dec_list(out: &mut String, items: &[u32])
    ensures
        final(out)@ == old(out)@ + dec_list(items@),
{
    let ghost before = out@;
    out.append("[");
    let mut i: usize = 0;
    while i < items.len()
        invariant
            i <= items@.len(),
            out@ == before + "["@ + dec_items(items@.take(i as int)),
        decreases items@.len() - i,
    {
        if i > 0 {
            out.append(", ");
        }
        push_dec(out, items[i] as u64);
        proof {
            let next = items@.take(i + 1);
            assert(next.drop_last() =~= items@.take(i as int));
            assert(next.last() == items@[i as int]);
            if i == 0 {
                assert(items@.take(0) =~= Seq::<u32>::empty());
            }
            assert(out@ =~= before + "["@ + dec_items(next));
        }
        i += 1;
    }
    assert(items@.take(i as int) =~= items@);
    out.append("]");
    assert(out@ =~= before + dec_list(items@));
}

// ---- White space ----

/// The character is white space: it has the `White_Space` property of Unicode.
pub open spec fn is_white(c: char) -> bool {
    ||| '\u{9}' <= c <= '\u{d}'
    ||| c == '\u{20}'
    ||| c == '\u{85}'
    ||| c == '\u{a0}'
    ||| c == '\u{1680}'
    ||| '\u{2000}' <= c <= '\u{200a}'
    ||| c == '\u{2028}'
    ||| c == '\u{2029}'
    ||| c == '\u{202f}'
    ||| c == '\u{205f}'
    ||| c == '\u{3000}'
}

/// The text without white space at its end.
pub open spec fn trimmed_end(s: Seq<char>) -> Seq<char>
    decreases s.len(),
{
    if s.len() > 0 && is_white(s.last()) {
        trimmed_end(s.drop_last())
    } else {
        s
    }
}

/// The text without white space at its start.
pub open spec fn trimmed_start(s: Seq<char>) -> Seq<char>
    decreases s.len(),
{
    if s.len() > 0 && is_white(s[0]) {
        trimmed_start(s.skip(1))
    } else {
        s
    }
}

/// The text without white space at its ends.
pub open spec fn trimmed(s: Seq<char>) -> Seq<char> {
    trimmed_end(trimmed_start(s))
}

fn white(c: char) -> (r: bool)
    ensures
        r == is_white(c),
{
    ('\u{9}' <= c && c <= '\u{d}') || c == '\u{20}' || c == '\u{85}' || c == '\u{a0}' || c
        == '\u{1680}' || ('\u{2000}' <= c && c <= '\u{200a}') || c == '\u{2028}' || c == '\u{2029}'
        || c == '\u{202f}' || c == '\u{205f}' || c == '\u{3000}'
}

/// Takes the white space off the end of a text.
pub fn trim_end(s: &str) -> (r: &str)
    ensures
        r@ == trimmed_end(s@),
{
    let mut n: usize = s.unicode_len();
    assert(s@.take(n as int) =~= s@);
    while n > 0 && white(s.get_char(n - 1))
        invariant
            n <= s@.len(),
            trimmed_end(s@) == trimmed_end(s@.take(n as int)),
        decreases n,
    {
        assert(s@.take(n as int).drop_last() =~= s@.take(n - 1));
        n -= 1;
    }
    assert(s@.take(n as int) =~= s@.subrange(0, n as int));
    s.substring_char(0, n)
}

/// Takes the white space off both ends of a text.
pub fn trim(s: &str) -> (r: &str)
    ensures
        r@ == trimmed(s@),
{
    let n: usize = s.unicode_len();
    let mut i: usize = 0;
    assert(s@.skip(0) =~= s@);
    while i < n && white(s.get_char(i))
        invariant
            i <= n,
            n == s@.len(),
            trimmed_start(s@) == trimmed_start(s@.skip(i as int)),
        decreases n - i,
    {
        assert(s@.skip(i as int).skip(1) =~= s@.skip(i + 1));
        i += 1;
    }
    assert(s@.skip(i as int) =~= s@.subrange(i as int, n as int));
    trim_end(s.substring_char(i, n))
}

/// What is left of a text has no white space at its ends, and is a part of it in one piece.
pub proof fn law_trimmed(s: Seq<char>)
    ensures
        trimmed(s).len() > 0 ==> !is_white(trimmed(s)[0]) && !is_white(trimmed(s).last()),
        exists|a: int, b: int| 0 <= a <= b <= s.len() && trimmed(s) == #[trigger] s.subrange(a, b),
{
    let t = trimmed_start(s);
    let a = lemma_trimmed_start(s);
    let b = lemma_trimmed_end(t);
    assert(trimmed(s) =~= s.subrange(a, a + b));
}

proof fn lemma_trimmed_start(s: Seq<char>) -> (a: int)
    ensures
        0 <= a <= s.len(),
        trimmed_start(s) == s.subrange(a, s.len() as int),
        trimmed_start(s).len() > 0 ==> !is_white(trimmed_start(s)[0]),
    decreases s.len(),
{
    if s.len() > 0 && is_white(s[0]) {
        let a = lemma_trimmed_start(s.skip(1));
        assert(trimmed_start(s) =~= s.subrange(a + 1, s.len() as int));
        a + 1
    } else {
        assert(s =~= s.subrange(0, s.len() as int));
        0
    }
}

proof fn lemma_trimmed_end(s: Seq<char>) -> (b: int)
    ensures
        0 <= b <= s.len(),
        trimmed_end(s) == s.subrange(0, b),
        trimmed_end(s).len() > 0 ==> !is_white(trimmed_end(s).last()),
    decreases s.len(),
{
    if s.len() > 0 && is_white(s.last()) {
        let b = lemma_trimmed_end(s.drop_last());
        assert(trimmed_end(s) =~= s.subrange(0, b));
        b
    } else {
        assert(s =~= s.subrange(0, s.len() as int));
        s.len() as int
    }
}

/// The bytes of two texts, one after the other, are the bytes of the first and then of the second.
pub proof fn law_encode_concat(a: Seq<char>, b: Seq<char>)
    ensures
        encode_utf8(a + b) == encode_utf8(a) + encode_utf8(b),
    decreases a.len(),
{
    reveal_with_fuel(encode_utf8, 2);
    if a.len() == 0 {
        assert(a + b =~= b);
        assert(encode_utf8(a) + encode_utf8(b) =~= encode_utf8(b));
    } else {
        law_encode_concat(a.drop_first(), b);
        assert((a + b).drop_first() =~= a.drop_first() + b);
        assert(encode_utf8(a + b) =~= encode_utf8(a) + encode_utf8(b));
    }
}

/// A text whose bytes open those of another opens the other.
pub proof fn law_encoded_prefix(a: Seq<char>, c: Seq<char>)
    requires
        encode_utf8(a).is_prefix_of(encode_utf8(c)),
    ensures
        a.is_prefix_of(c),
    decreases a.len(),
{
    reveal_with_fuel(encode_utf8, 2);
    if a.len() > 0 {
        let x = encode_utf8(a);
        let y = encode_utf8(c);
        encode_utf8_first_scalar(a);
        assert(x.len() > 0);
        assert(c.len() > 0);
        encode_utf8_first_scalar(c);
        assert(x[0] == y[0]);
        let n = length_of_first_scalar(x);
        assert(n == length_of_first_scalar(y));
        assert(1 <= n <= x.len());
        assert(n > 1 ==> x[1] == y[1]);
        assert(n > 2 ==> x[2] == y[2]);
        assert(n > 3 ==> x[3] == y[3]);
        assert(a[0] as u32 == c[0] as u32);
        char_u32_cast(a[0], a[0] as u32);
        char_u32_cast(c[0], c[0] as u32);
        let ra = encode_utf8(a.drop_first());
        let rc = encode_utf8(c.drop_first());
        let one = encode_scalar(a[0] as u32);
        assert(x == one + ra && y == one + rc);
        assert(ra =~= rc.subrange(0, ra.len() as int)) by {
            assert forall|i: int| 0 <= i < ra.len() implies ra[i] == rc[i] by {
                assert(ra[i] == x[one.len() + i]);
                assert(rc[i] == y[one.len() + i]);
            }
        }
        law_encoded_prefix(a.drop_first(), c.drop_first());
        assert(a =~= c.subrange(0, a.len() as int)) by {
            assert forall|i: int| 0 <= i < a.len() implies a[i] == c[i] by {
                if i > 0 {
                    assert(a[i] == a.drop_first()[i - 1]);
                    assert(c[i] == c.drop_first()[i - 1]);
                }
            }
        }
    }
}

} // verus!
