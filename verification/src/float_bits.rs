//! Single-precision numbers by their bit patterns.
//!
//! A pattern below `SIGN` is a non-negative number; the rest are the same magnitudes negated.
//! Magnitudes order numbers; those above `INFINITE` stand for no number.

use vstd::prelude::*;

verus! {

/// The pattern of negative zero, the lowest with the sign set.
pub const SIGN: u32 = 0x8000_0000;

/// The magnitude of an infinity.
pub const INFINITE: u32 = 0x7F80_0000;

/// The pattern without its sign.
pub open spec fn magnitude(bits: u32) -> u32 {
    if bits >= SIGN {
        (bits - SIGN) as u32
    } else {
        bits
    }
}

/// The pattern stands for no number.
pub open spec fn is_nan(bits: u32) -> bool {
    magnitude(bits) > INFINITE
}

/// The pattern stands for a number other than an infinity.
pub open spec fn is_finite(bits: u32) -> bool {
    magnitude(bits) < INFINITE
}

/// An integer that orders numbers as their values do; both zeros have the value 0.
pub open spec fn value_order(bits: u32) -> int {
    if bits >= SIGN {
        -(magnitude(bits) as int)
    } else {
        bits as int
    }
}

/// An integer that orders all patterns as the IEEE total order does: negative zero comes before
/// positive zero, and patterns that stand for no number come at both ends.
pub open spec fn total_order(bits: u32) -> int {
    if bits >= SIGN {
        -(magnitude(bits) as int) - 1
    } else {
        bits as int
    }
}

/// `a > b` as numbers; never true of a pattern that stands for no number.
pub open spec fn gt(a: u32, b: u32) -> bool {
    !is_nan(a) && !is_nan(b) && value_order(a) > value_order(b)
}

/// `a == b` as numbers; never true of a pattern that stands for no number.
pub open spec fn num_eq(a: u32, b: u32) -> bool {
    !is_nan(a) && !is_nan(b) && value_order(a) == value_order(b)
}

/// All elements are equal as numbers.
pub open spec fn all_num_eq(a: Seq<u32>, b: Seq<u32>) -> bool {
    a.len() == b.len() && forall|i: int| 0 <= i < a.len() ==> num_eq(#[trigger] a[i], b[i])
}

fn magnitude_of(bits: u32) -> (m: u32)
    ensures
        m == magnitude(bits),
{
    if bits >= SIGN {
        bits - SIGN
    } else {
        bits
    }
}

/// `true` if the pattern stands for no number.
pub fn bits_nan(bits: u32) -> (r: bool)
    ensures
        r == is_nan(bits),
{
    magnitude_of(bits) > INFINITE
}

/// `true` if the pattern stands for a number other than an infinity.
pub fn bits_finite(bits: u32) -> (r: bool)
    ensures
        r == is_finite(bits),
{
    magnitude_of(bits) < INFINITE
}

/// The integer that orders numbers by value.
pub fn order_key(bits: u32) -> (k: i64)
    ensures
        k == value_order(bits),
{
    if bits >= SIGN {
        -(magnitude_of(bits) as i64)
    } else {
        bits as i64
    }
}

/// The integer that orders all patterns.
pub fn total_key(bits: u32) -> (k: i64)
    ensures
        k == total_order(bits),
{
    if bits >= SIGN {
        -(magnitude_of(bits) as i64) - 1
    } else {
        bits as i64
    }
}

/// `true` if `a > b` as numbers.
pub fn bits_gt(a: u32, b: u32) -> (r: bool)
    ensures
        r == gt(a, b),
{
    !bits_nan(a) && !bits_nan(b) && order_key(a) > order_key(b)
}

/// `true` if `a == b` as numbers.
pub fn bits_num_eq(a: u32, b: u32) -> (r: bool)
    ensures
        r == num_eq(a, b),
{
    !bits_nan(a) && !bits_nan(b) && order_key(a) == order_key(b)
}

/// `true` if all elements are equal as numbers.
pub fn bits_all_num_eq(a: &[u32], b: &[u32]) -> (r: bool)
    ensures
        r == all_num_eq(a@, b@),
{
    if a.len() != b.len() {
        return false;
    }
    let mut i: usize = 0;
    while i < a.len()
        invariant
            i <= a@.len(),
            a@.len() == b@.len(),
            forall|j: int| 0 <= j < i ==> num_eq(#[trigger] a@[j], b@[j]),
        decreases a@.len() - i,
    {
        if !bits_num_eq(a[i], b[i]) {
            return false;
        }
        i += 1;
    }
    true
}

/// Numbers are ordered as their patterns are where no sign is set, in the opposite way where both
/// signs are set, and a number with the sign set is never above one without. Both zeros are equal.
/// The total order differs only in that it puts negative zero before zero.
pub proof fn law_value_order(a: u32, b: u32)
    ensures
        a < b < 0x8000_0000 ==> value_order(a) < value_order(b) && total_order(a) < total_order(b),
        0x8000_0000 <= a < b ==> value_order(a) > value_order(b) && total_order(a) > total_order(b),
        a < 0x8000_0000 <= b ==> value_order(a) >= value_order(b) && total_order(a) > total_order(b),
        a < 0x8000_0000 <= b ==> (value_order(a) == value_order(b) <==> a == 0 && b == 0x8000_0000),
{
}

/// A pattern stands for no number exactly where its exponent is the highest and its fraction is not
/// 0, for an infinity where the fraction is 0, and otherwise for a finite number.
pub proof fn law_patterns(b: u32)
    ensures
        is_nan(b) <==> (b / 0x80_0000u32) % 256 == 255 && b % 0x80_0000u32 != 0,
        is_finite(b) <==> (b / 0x80_0000u32) % 256 != 255,
{
    let m = magnitude(b);
    if b >= 0x8000_0000u32 {
        assert((b / 0x80_0000u32) % 256 == (m / 0x80_0000u32) % 256 && b % 0x80_0000u32 == m
            % 0x80_0000u32) by (bit_vector)
            requires
                b >= 0x8000_0000u32,
                m == b - 0x8000_0000u32,
        ;
    }
    assert((m / 0x80_0000u32) % 256 == 255 <==> m >= 0x7F80_0000u32) by (bit_vector)
        requires
            m < 0x8000_0000u32,
    ;
    assert(m >= 0x7F80_0000u32 ==> (m % 0x80_0000u32 != 0 <==> m > 0x7F80_0000u32))
        by (bit_vector)
        requires
            m < 0x8000_0000u32,
    ;
}

/// Two numbers are equal exactly where neither is above the other, and a pattern that stands for no
/// number is neither equal to another nor above or below it.
pub proof fn law_num_eq(a: u32, b: u32)
    ensures
        !is_nan(a) && !is_nan(b) ==> (num_eq(a, b) <==> !gt(a, b) && !gt(b, a)),
        !is_nan(a) && !is_nan(b) && a != b ==> (num_eq(a, b) <==> (a == 0 && b == 0x8000_0000) || (a
            == 0x8000_0000 && b == 0)),
        is_nan(a) || is_nan(b) ==> !num_eq(a, b) && !gt(a, b) && !gt(b, a),
        num_eq(a, b) == num_eq(b, a),
{
}

} // verus!
