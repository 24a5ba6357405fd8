//! What the norm refuses. The squares, their mean and the root are the caller's.

use vstd::prelude::*;

use crate::float_bits::{bits_gt, gt};

verus! {

/// Why a vector is not normalised.
#[derive(Debug, Clone, Copy, PartialEq, Eq, Structural)]
pub enum NormFault {
    /// The vector and its weights differ in length.
    Length,
    /// What the mean is raised by is not a number above 0.
    Epsilon,
}

/// Checks a vector of `x` elements with as many weights. `eps` is the bit pattern of what the mean
/// is raised by.
pub fn check_rms_norm(x: usize, weights: usize, eps: u32) -> (r: Option<NormFault>)
    ensures
        r == if x != weights {
            Some(NormFault::Length)
        } else if !gt(eps, 0) {
            Some(NormFault::Epsilon)
        } else {
            None
        },
{
    if x != weights {
        Some(NormFault::Length)
    } else if !bits_gt(eps, 0) {
        Some(NormFault::Epsilon)
    } else {
        None
    }
}

} // verus!
