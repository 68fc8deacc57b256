//! Arithmetic in the prime field that secrets and shares live in.

use vstd::prelude::*;

verus! {

/// The prime modulus of the field that shares and secrets live in.
pub const PRIME: i32 = 127;

/// The canonical representative of `v` in `[0, PRIME)`.
pub open spec fn reduce(v: int) -> int {
    v % (PRIME as int)
}

/// Reasons a sharing operation refuses its input.
#[derive(Debug, Clone, Copy, PartialEq, Eq, Structural)]
pub enum ShareError {
    /// A scheme was asked for fewer than one share.
    InvalidPartyCount,
    /// Two sequences that must be combined position by position differ in length.
    ShapeMismatch,
    /// An exact integer result does not fit the working integer type.
    ArithmeticOverflow,
}

/// Maps any integer, negative ones included, to its canonical field element.
pub fn calc_mod(v: i32) -> (r: i32)
    ensures
        r == reduce(v as int),
        0 <= r < PRIME,
{
    let m = v % PRIME;
    if m < 0 {
        m + PRIME
    } else {
        m
    }
}

/// Reduction is idempotent and always lands in `[0, PRIME)`.
pub proof fn lemma_reduce_idempotent(v: int)
    ensures
        reduce(reduce(v)) == reduce(v),
        0 <= reduce(v) < PRIME,
{
    vstd::arithmetic::div_mod::lemma_mod_bound(v, PRIME as int);
    vstd::arithmetic::div_mod::lemma_mod_twice(v, PRIME as int);
}

} // verus!
