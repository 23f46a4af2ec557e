//! The arithmetic core the simulation borrows from its embedder.
//!
//! The engine holds every quantity as an IEEE-754 bit pattern and does
//! all of its own comparisons, decompositions and bookkeeping in integer
//! arithmetic. What it cannot do without a floating-point unit — adding
//! times, scaling rates, taking a logarithm — it requests through this
//! trait, which the embedding application implements over its hardware
//! floats, canonicalising every `-0.0` result to `+0.0` as the rest of
//! the crate expects. Each method's contract states only what the
//! IEEE-754 standard then guarantees of the corresponding operation.

use vstd::prelude::*;

verus! {

use crate::float_bits::ONE_BITS;
use crate::float_bits::is_finite_bits;
use crate::float_bits::is_infinite_bits;
use crate::float_bits::is_nonnegative_bits;
use crate::float_bits::is_positive_bits;

/// Floating-point arithmetic on bit patterns, implemented outside the
/// verified core. All patterns handed in and out are non-negative and
/// not NaN; the preconditions exclude every combination the standard
/// sends to NaN.
pub trait MathsCore {
    /// IEEE-754 addition. Two non-negative values sum to a non-negative
    /// value, never to NaN; adding zero is exact; the sum is at least
    /// either summand.
    fn add_nonneg(a: u64, b: u64) -> (r: u64)
        requires
            is_nonnegative_bits(a),
            is_nonnegative_bits(b),
        ensures
            is_nonnegative_bits(r),
            b == 0u64 ==> r == a,
            a == 0u64 ==> r == b,
            r >= a && r >= b,
    ;

    /// IEEE-754 multiplication. The zero-times-infinity combinations
    /// that produce NaN are excluded; multiplying a finite value by zero
    /// gives zero.
    fn mul_nonneg(a: u64, b: u64) -> (r: u64)
        requires
            is_nonnegative_bits(a),
            is_nonnegative_bits(b),
            is_infinite_bits(a) ==> b != 0u64,
            is_infinite_bits(b) ==> a != 0u64,
        ensures
            is_nonnegative_bits(r),
            (b == 0u64 && is_finite_bits(a)) ==> r == 0u64,
            (a == 0u64 && is_finite_bits(b)) ==> r == 0u64,
            (a >= ONE_BITS && is_finite_bits(a) && is_positive_bits(b)) ==> (is_positive_bits(r)
                && r >= b),
    ;

    /// IEEE-754 division by a positive value. Infinity-over-infinity is
    /// excluded; a quotient of a value by itself is exactly one, zero
    /// divided by anything is zero, and a numerator bounded by the
    /// denominator yields a quotient of at most one.
    fn div_nonneg(a: u64, b: u64) -> (r: u64)
        requires
            is_nonnegative_bits(a),
            is_positive_bits(b),
            !(is_infinite_bits(a) && is_infinite_bits(b)),
        ensures
            is_nonnegative_bits(r),
            a == 0u64 ==> r == 0u64,
            (a == b && is_finite_bits(a)) ==> r == ONE_BITS,
            (a <= b && is_finite_bits(b)) ==> r <= ONE_BITS,
    ;

    /// The negated IEEE-754 natural logarithm of a value in the closed
    /// unit interval: non-negative, with `-ln(0) = +infinity` and
    /// `-ln(1) = 0`.
    fn neg_ln_unit(a: u64) -> (r: u64)
        requires
            is_nonnegative_bits(a),
            a <= ONE_BITS,
        ensures
            is_nonnegative_bits(r),
            a == ONE_BITS ==> r == 0u64,
    ;

    /// IEEE-754 subtraction of a smaller non-negative value from a
    /// larger one: the difference cannot go below zero.
    fn sub_nonneg(a: u64, b: u64) -> (r: u64)
        requires
            is_nonnegative_bits(a),
            is_nonnegative_bits(b),
            b <= a,
            is_finite_bits(a),
        ensures
            is_nonnegative_bits(r),
            r <= a,
    ;

    /// The nearest double to an unsigned 64-bit integer; every such
    /// integer is finite in double range.
    fn u64_to_f64(n: u64) -> (r: u64)
        ensures
            is_nonnegative_bits(r),
            is_finite_bits(r),
            n == 0u64 ==> r == 0u64,
            n >= 1 ==> r >= ONE_BITS,
    ;

    /// The floor of a non-negative value, truncated into a `u64` with
    /// saturation, exactly as a hardware float-to-integer cast.
    fn floor_to_u64(a: u64) -> (r: u64)
        requires
            is_nonnegative_bits(a),
        ensures
            a == 0u64 ==> r == 0u64,
    ;
}

} // verus!
