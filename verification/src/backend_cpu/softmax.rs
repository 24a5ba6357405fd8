//! What the softmax subtracts, and the temperatures it accepts.
//!
//! Numbers are bit patterns. The exponentials and their sum are the caller's.

use vstd::prelude::*;

use crate::float_bits::{bits_finite, bits_gt, gt, is_finite, is_nan, value_order};

verus! {

/// The number that is kept after the first `n`: the first one, and then each that is greater than
/// the one kept so far.
pub open spec fn kept_max(x: Seq<u32>, n: int) -> u32
    decreases n,
{
    if n <= 1 {
        x[0]
    } else if gt(x[n - 1], kept_max(x, n - 1)) {
        x[n - 1]
    } else {
        kept_max(x, n - 1)
    }
}

/// The number that is subtracted before the exponentials are taken; there is none without numbers.
pub fn softmax_max(x: &[u32]) -> (r: Option<u32>)
    ensures
        r == if x@.len() == 0 {
            None
        } else {
            Some(kept_max(x@, x@.len() as int))
        },
{
    if x.len() == 0 {
        return None;
    }
    let mut max: u32 = x[0];
    let mut i: usize = 1;
    while i < x.len()
        invariant
            1 <= i <= x@.len(),
            max == kept_max(x@, i as int),
        decreases x@.len() - i,
    {
        if bits_gt(x[i], max) {
            max = x[i];
        }
        i += 1;
    }
    Some(max)
}

/// Where all are numbers, the one that is subtracted is one of them, and none is greater: no
/// exponential is taken of anything above 0.
pub proof fn law_max_bounds(x: Seq<u32>, n: int)
    requires
        1 <= n <= x.len(),
        forall|i: int| 0 <= i < n ==> !is_nan(#[trigger] x[i]),
    ensures
        exists|i: int| 0 <= i < n && #[trigger] x[i] == kept_max(x, n),
        forall|i: int|
            0 <= i < n ==> value_order(#[trigger] x[i]) <= value_order(kept_max(x, n)),
    decreases n,
{
    if n > 1 {
        law_max_bounds(x, n - 1);
        assert(x[n - 1] == x[n - 1]);
    } else {
        assert(x[0] == kept_max(x, n));
    }
}

/// `true` if the logits can be divided by this temperature: it is above 0 and finite.
pub fn temperature_accepted(temperature: u32) -> (r: bool)
    ensures
        r == (gt(temperature, 0) && is_finite(temperature)),
{
    bits_gt(temperature, 0) && bits_finite(temperature)
}

} // verus!
