//! Half-precision numbers as bit patterns, and the single-precision patterns of the same numbers.

use vstd::arithmetic::power::lemma_pow0;
use vstd::arithmetic::power2::{
    lemma2_to64, lemma_pow2_adds, lemma_pow2_strictly_increases, lemma_pow2_unfold, pow2,
};
use vstd::prelude::*;

verus! {

/// The exponent field of a half-precision pattern.
pub open spec fn half_exponent(h: u16) -> int {
    (h as int / 1024) % 32
}

/// The fraction field of a half-precision pattern.
pub open spec fn half_fraction(h: u16) -> int {
    h as int % 1024
}

/// The sign of a half-precision pattern is set.
pub open spec fn half_negative(h: u16) -> bool {
    h >= 0x8000
}

/// The magnitude of a finite half-precision number, in units of 2 to the power of -24.
pub open spec fn half_units(h: u16) -> int {
    if half_exponent(h) == 0 {
        half_fraction(h)
    } else {
        (1024 + half_fraction(h)) * pow2((half_exponent(h) - 1) as nat)
    }
}

/// The exponent field of a single-precision pattern.
pub open spec fn single_exponent(b: u32) -> int {
    (b as int / 0x80_0000) % 256
}

/// The fraction field of a single-precision pattern.
pub open spec fn single_fraction(b: u32) -> int {
    b as int % 0x80_0000
}

/// The sign of a single-precision pattern is set.
pub open spec fn single_negative(b: u32) -> bool {
    b >= 0x8000_0000
}

/// The magnitude of a finite single-precision number, in units of 2 to the power of -149.
pub open spec fn single_units(b: u32) -> int {
    if single_exponent(b) == 0 {
        single_fraction(b)
    } else {
        (0x80_0000 + single_fraction(b)) * pow2((single_exponent(b) - 1) as nat)
    }
}

/// The two patterns stand for the same: the same finite number, an infinity of the same sign, or
/// no number.
pub open spec fn same_number(h: u16, b: u32) -> bool {
    if half_exponent(h) == 31 {
        &&& single_exponent(b) == 255
        &&& half_fraction(h) == 0 <==> single_fraction(b) == 0
        &&& half_negative(h) == single_negative(b)
    } else {
        &&& single_exponent(b) < 255
        &&& half_negative(h) == single_negative(b)
        &&& single_units(b) == half_units(h) * pow2(125)
    }
}

/// The pattern with this sign, exponent and fraction.
fn compose(negative: bool, exponent: u32, fraction: u32) -> (b: u32)
    requires
        exponent < 256,
        fraction < 0x80_0000,
    ensures
        single_negative(b) == negative,
        single_exponent(b) == exponent,
        single_fraction(b) == fraction,
{
    let sign: u32 = if negative {
        0x8000_0000
    } else {
        0
    };
    let b: u32 = sign + exponent * 0x80_0000 + fraction;
    assert(b as int / 0x80_0000 == sign as int / 0x80_0000 + exponent);
    b
}

/// The single-precision pattern of a half-precision number.
pub fn half_to_single(h: u16) -> (b: u32)
    ensures
        same_number(h, b),
{
    let negative: bool = h >= 0x8000;
    let exponent: u32 = ((h / 1024) % 32) as u32;
    let fraction: u32 = (h % 1024) as u32;
    if exponent == 31 {
        return compose(negative, 255, fraction * 0x2000);
    }
    if exponent > 0 {
        let b: u32 = compose(negative, exponent + 112, fraction * 0x2000);
        proof {
            lemma_scaled(1024 + fraction as int, exponent as int);
        }
        return b;
    }
    if fraction == 0 {
        let b: u32 = compose(negative, 0, 0);
        assert(0 * pow2(125) == 0) by (nonlinear_arith);
        return b;
    }
    let mut digits: u32 = fraction;
    let mut e: u32 = 113;
    proof {
        assert(pow2(0) == 1) by {
            reveal(pow2);
            lemma_pow0(2);
        }
        assert(digits == fraction * pow2(0)) by (nonlinear_arith)
            requires
                digits == fraction,
                pow2(0) == 1,
        ;
    }
    while digits < 1024
        invariant
            0 < fraction <= digits < 2048,
            fraction < 1024,
            103 <= e <= 113,
            digits == fraction * pow2((113 - e) as nat),
            digits < 1024 ==> e > 103,
        decreases e,
    {
        let ghost k = (113 - e) as nat;
        proof {
            lemma_pow2_unfold(k + 1);
            assert(fraction * (2 * pow2(k)) == 2 * (fraction * pow2(k))) by (nonlinear_arith);
            lemma_digits_room(fraction as int, k);
        }
        digits = digits * 2;
        e = e - 1;
    }
    let b: u32 = compose(negative, e, (digits - 1024) * 0x2000);
    proof {
        let k = (113 - e) as nat;
        lemma_scaled(digits as int, e - 112);
        lemma_small(fraction as int, k);
    }
    b
}

/// A fraction that has been doubled `k` times and is still short of ten digits can be doubled once
/// more, and after ten times it is not short of them.
proof fn lemma_digits_room(fraction: int, k: nat)
    requires
        0 < fraction,
        fraction * pow2(k) < 1024,
    ensures
        k < 10,
        fraction * pow2(k + 1) < 1024 ==> k < 9,
{
    assert(pow2(k) <= fraction * pow2(k)) by (nonlinear_arith)
        requires
            fraction >= 1,
            pow2(k) >= 0,
    ;
    assert(pow2(k + 1) <= fraction * pow2(k + 1)) by (nonlinear_arith)
        requires
            fraction >= 1,
            pow2(k + 1) >= 0,
    ;
    lemma2_to64();
    if k >= 10 {
        lemma_grows(10, k);
    }
    if fraction * pow2(k + 1) < 1024 && k >= 9 {
        lemma_grows(10, k + 1);
    }
}

proof fn lemma_grows(a: nat, b: nat)
    requires
        a <= b,
    ensures
        pow2(a) <= pow2(b),
{
    if a < b {
        lemma_pow2_strictly_increases(a, b);
    }
}

/// Digits with the exponent of a normal half-precision number, and with 112 more.
proof fn lemma_scaled(digits: int, exponent: int)
    requires
        -111 < exponent,
    ensures
        (digits * 0x2000) * pow2((exponent + 111) as nat) == digits * pow2((exponent + 124) as nat),
        exponent >= 1 ==> digits * pow2((exponent + 124) as nat) == (digits * pow2(
            (exponent - 1) as nat,
        )) * pow2(125),
{
    lemma2_to64();
    let p = pow2((exponent + 111) as nat);
    lemma_pow2_adds(13, (exponent + 111) as nat);
    assert(pow2(13) == 0x2000);
    assert((digits * 0x2000) * p == digits * (0x2000 * p)) by (nonlinear_arith);
    if exponent >= 1 {
        lemma_pow2_adds((exponent - 1) as nat, 125);
        let q = pow2((exponent - 1) as nat);
        let r = pow2(125);
        assert(digits * (q * r) == (digits * q) * r) by (nonlinear_arith);
    }
}

/// A number below the normal ones: doubling its digits `k` times takes `k` off the exponent.
proof fn lemma_small(fraction: int, k: nat)
    requires
        k <= 125,
    ensures
        (fraction * pow2(k)) * pow2((125 - k) as nat) == fraction * pow2(125),
{
    lemma_pow2_adds(k, (125 - k) as nat);
    let q = pow2(k);
    let r = pow2((125 - k) as nat);
    assert((fraction * q) * r == fraction * (q * r)) by (nonlinear_arith);
}

/// The numbers of half precision: the first pattern is 0, and each next one is higher by one unit,
/// and by twice as many units from each power of two on that the patterns reach.
pub proof fn law_half_steps(h: u16)
    requires
        h < 0x7BFF,
    ensures
        half_units(0) == 0,
        half_units((h + 1) as u16) - half_units(h) == if h < 0x400 {
            1
        } else {
            pow2((h as int / 1024 - 1) as nat) as int
        },
        !half_negative(h),
{
    let e = h as int / 1024;
    let f = h as int % 1024;
    let n = (h + 1) as u16;
    lemma_pow2_zero();
    assert(half_exponent(h) == e);
    if f < 1023 {
        assert(half_exponent(n) == e && half_fraction(n) == f + 1);
        if e > 0 {
            let p = pow2((e - 1) as nat) as int;
            assert((1024 + f + 1) * p == (1024 + f) * p + p) by (nonlinear_arith);
        }
    } else {
        assert(n as int == 1024 * (e + 1));
        assert(half_exponent(n) == e + 1 && half_fraction(n) == 0);
        if e > 0 {
            lemma_pow2_unfold(e as nat);
            let p = pow2((e - 1) as nat) as int;
            assert((1024 + 0) * pow2(e as nat) == (1024 + f) * p + p) by (nonlinear_arith)
                requires
                    pow2(e as nat) == 2 * p,
                    f == 1023,
            ;
        } else {
            assert(1024 * pow2(0) == 1024);
        }
    }
}

/// The numbers of single precision: the first pattern is 0, and each next one is higher by one
/// unit, and by twice as many units from each power of two on that the patterns reach.
pub proof fn law_single_steps(b: u32)
    requires
        b < 0x7F7F_FFFF,
    ensures
        single_units(0) == 0,
        single_units((b + 1) as u32) - single_units(b) == if b < 0x80_0000 {
            1
        } else {
            pow2((b as int / 0x80_0000 - 1) as nat) as int
        },
        !single_negative(b),
{
    let e = b as int / 0x80_0000;
    let f = b as int % 0x80_0000;
    let n = (b + 1) as u32;
    lemma_pow2_zero();
    assert(single_exponent(b) == e);
    if f < 0x7F_FFFF {
        assert(single_exponent(n) == e && single_fraction(n) == f + 1);
        if e > 0 {
            let p = pow2((e - 1) as nat) as int;
            assert((0x80_0000 + f + 1) * p == (0x80_0000 + f) * p + p) by (nonlinear_arith);
        }
    } else {
        assert(n as int == 0x80_0000 * (e + 1));
        assert(single_exponent(n) == e + 1 && single_fraction(n) == 0);
        if e > 0 {
            lemma_pow2_unfold(e as nat);
            let p = pow2((e - 1) as nat) as int;
            assert((0x80_0000 + 0) * pow2(e as nat) == (0x80_0000 + f) * p + p)
                by (nonlinear_arith)
                requires
                    pow2(e as nat) == 2 * p,
                    f == 0x7F_FFFF,
            ;
        } else {
            assert(0x80_0000 * pow2(0) == 0x80_0000);
        }
    }
}

proof fn lemma_pow2_zero()
    ensures
        pow2(0) == 1,
{
    lemma2_to64();
}

/// A pattern and the pattern with its sign set stand for a number and its negative, in both
/// precisions, and a half-precision number keeps its sign.
pub proof fn law_same_number_signs(h: u16, b: u32)
    requires
        h < 0x8000,
        b < 0x8000_0000,
        same_number(h, b),
    ensures
        same_number((h + 0x8000) as u16, (b + 0x8000_0000) as u32),
        !same_number(h, (b + 0x8000_0000) as u32),
{
    let g = (h + 0x8000) as u16;
    let c = (b + 0x8000_0000) as u32;
    assert(half_exponent(g) == half_exponent(h));
    assert(half_fraction(g) == half_fraction(h));
    assert(single_exponent(c) == single_exponent(b));
    assert(single_fraction(c) == single_fraction(b));
}

} // verus!
