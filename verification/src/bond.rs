//! Bounded floating-point values, carried as IEEE-754 bit patterns.
//!
//! Each type rejects NaN and enforces its range when constructed, so the
//! rest of the crate can rely on the bounds without re-checking them.
//! `-0.0` is canonicalised to `+0.0` on entry; afterwards the unsigned
//! order of the stored bit patterns is exactly the numeric order of the
//! encoded values (see [`crate::float_bits`]).

use vstd::prelude::*;

verus! {

use crate::float_bits::INFINITY_BITS;
use crate::float_bits::NEGATIVE_ZERO_BITS;
use crate::float_bits::ONE_BITS;
use crate::float_bits::is_finite_bits;
use crate::float_bits::is_nonnegative_bits;
use crate::float_bits::is_positive_bits;

/// Replaces the bit pattern of `-0.0` by that of `+0.0`.
pub open spec fn spec_canonical(bits: u64) -> u64 {
    if bits == NEGATIVE_ZERO_BITS {
        0u64
    } else {
        bits
    }
}

/// A double-precision value `x` with `x > 0`; `+infinity` is allowed.
#[derive(Clone, Copy, PartialEq, Eq, Structural, Hash, Debug)]
pub struct PositiveF64 {
    bits: u64,
}

/// The rejected bit pattern, kept for error reporting.
#[derive(Clone, Copy, PartialEq, Eq, Structural, Debug)]
pub struct PositiveF64Error {
    bits: u64,
}

/// A double-precision value `x` with `x >= 0`; `+infinity` is allowed.
#[derive(Clone, Copy, PartialEq, Eq, Structural, Hash, Debug)]
pub struct NonNegativeF64 {
    bits: u64,
}

/// The rejected bit pattern, kept for error reporting.
#[derive(Clone, Copy, PartialEq, Eq, Structural, Debug)]
pub struct NonNegativeF64Error {
    bits: u64,
}

/// A double-precision value `x` with `0 <= x <= 1`.
#[derive(Clone, Copy, PartialEq, Eq, Structural, Hash, Debug)]
pub struct ClosedUnitF64 {
    bits: u64,
}

/// The rejected bit pattern, kept for error reporting.
#[derive(Clone, Copy, PartialEq, Eq, Structural, Debug)]
pub struct ClosedUnitF64Error {
    bits: u64,
}

/// A double-precision value `x` with `0 < x <= 1`.
#[derive(Clone, Copy, PartialEq, Eq, Structural, Hash, Debug)]
pub struct OpenClosedUnitF64 {
    bits: u64,
}

/// The rejected bit pattern, kept for error reporting.
#[derive(Clone, Copy, PartialEq, Eq, Structural, Debug)]
pub struct OpenClosedUnitF64Error {
    bits: u64,
}

impl View for PositiveF64 {
    type V = u64;

    closed spec fn view(&self) -> u64 {
        self.bits
    }
}

impl View for NonNegativeF64 {
    type V = u64;

    closed spec fn view(&self) -> u64 {
        self.bits
    }
}

impl View for ClosedUnitF64 {
    type V = u64;

    closed spec fn view(&self) -> u64 {
        self.bits
    }
}

impl View for OpenClosedUnitF64 {
    type V = u64;

    closed spec fn view(&self) -> u64 {
        self.bits
    }
}

impl PositiveF64Error {
    /// The rejected bit pattern.
    pub fn bits(&self) -> (r: u64)
        ensures
            r == self.spec_bits(),
    {
        self.bits
    }

    pub closed spec fn spec_bits(&self) -> u64 {
        self.bits
    }
}

impl PositiveF64 {
    /// The bit pattern of every `PositiveF64` is strictly positive.
    #[verifier::type_invariant]
    pub open spec fn type_inv(self) -> bool {
        is_positive_bits(self@)
    }

    /// Accepts exactly the patterns of values `x > 0` (NaN rejected).
    pub fn new(bits: u64) -> (r: Result<Self, PositiveF64Error>)
        ensures
            match r {
                Ok(v) => is_positive_bits(bits) && v@ == bits,
                Err(e) => !is_positive_bits(bits) && e.spec_bits() == bits,
            },
    {
        if bits != 0 && bits >> 63u64 == 0u64 && !(bits > INFINITY_BITS) {
            assert(is_positive_bits(bits)) by {
                crate::float_bits::lemma_nonnegative_bits_split(bits);
            }
            Ok(Self { bits })
        } else {
            assert(!is_positive_bits(bits)) by {
                if bits != 0 && bits >> 63u64 == 0u64 {
                    crate::float_bits::lemma_nonnegative_bits_split(bits);
                }
            }
            Err(PositiveF64Error { bits })
        }
    }

    /// Wraps a pattern already known to be strictly positive.
    pub fn new_unchecked(bits: u64) -> (r: Self)
        requires
            is_positive_bits(bits),
        ensures
            r@ == bits,
    {
        Self { bits }
    }

    /// The value `1.0`.
    pub fn one() -> (r: Self)
        ensures
            r@ == ONE_BITS,
    {
        assert(is_positive_bits(ONE_BITS)) by (bit_vector);
        Self { bits: ONE_BITS }
    }

    /// The value `+infinity`.
    pub fn infinity() -> (r: Self)
        ensures
            r@ == INFINITY_BITS,
    {
        assert(is_positive_bits(INFINITY_BITS)) by (bit_vector);
        Self { bits: INFINITY_BITS }
    }

    /// The underlying bit pattern.
    pub fn get(self) -> (r: u64)
        ensures
            r == self@,
    {
        self.bits
    }

    /// Forgets the lower bound.
    pub fn into_non_negative(self) -> (r: NonNegativeF64)
        ensures
            r@ == self@,
    {
        proof {
            use_type_invariant(self);
        }
        NonNegativeF64 { bits: self.bits }
    }

    /// The smallest representable value that is strictly greater than
    /// `before`, unless `value` already is strictly greater, in which case
    /// `value` itself is returned; an infinite `before` yields `+infinity`.
    pub fn max_after(before: NonNegativeF64, value: NonNegativeF64) -> (r: Self)
        ensures
            r@ == spec_max_after(before@, value@),
            is_finite_bits(before@) ==> r@ > before@,
    {
        proof {
            use_type_invariant(before);
            use_type_invariant(value);
        }
        if value.bits > before.bits {
            assert(is_positive_bits(value.bits)) by {
                crate::float_bits::lemma_nonnegative_bits_split(value.bits);
                crate::float_bits::lemma_nonnegative_bits_split(before.bits);
            }
            Self { bits: value.bits }
        } else if before.bits >= INFINITY_BITS {
            assert(is_positive_bits(INFINITY_BITS)) by (bit_vector);
            proof {
                let bb = before.bits;
                assert(bb >> 63u64 == 0u64 && bb >= 0x7ff0_0000_0000_0000u64 && !((bb >> 52u64)
                    & 0x7ffu64 == 0x7ffu64 && bb & 0x000f_ffff_ffff_ffffu64 != 0u64) ==> (bb
                    >> 52u64) & 0x7ffu64 == 0x7ffu64) by (bit_vector);
            }
            Self { bits: INFINITY_BITS }
        } else {
            proof {
                crate::float_bits::lemma_successor_is_positive(before.bits);
            }
            Self { bits: before.bits + 1 }
        }
    }
}

/// The pattern `max_after` returns: `value` if it is strictly greater than
/// `before`, the successor pattern of a finite `before` otherwise, and
/// `+infinity` for an infinite `before`.
pub open spec fn spec_max_after(before: u64, value: u64) -> u64 {
    if value > before {
        value
    } else if before >= INFINITY_BITS {
        INFINITY_BITS
    } else {
        (before + 1) as u64
    }
}

impl NonNegativeF64Error {
    /// The rejected bit pattern.
    pub fn bits(&self) -> (r: u64)
        ensures
            r == self.spec_bits(),
    {
        self.bits
    }

    pub closed spec fn spec_bits(&self) -> u64 {
        self.bits
    }
}

impl NonNegativeF64 {
    /// The bit pattern of every `NonNegativeF64` is non-negative.
    #[verifier::type_invariant]
    pub open spec fn type_inv(self) -> bool {
        is_nonnegative_bits(self@)
    }

    /// Accepts exactly the patterns of values `x >= 0` (NaN rejected);
    /// `-0.0` is accepted and canonicalised to `+0.0`.
    pub fn new(bits: u64) -> (r: Result<Self, NonNegativeF64Error>)
        ensures
            match r {
                Ok(v) => is_nonnegative_bits(spec_canonical(bits)) && v@ == spec_canonical(bits),
                Err(e) => !is_nonnegative_bits(spec_canonical(bits)) && e.spec_bits() == bits,
            },
    {
        if bits == NEGATIVE_ZERO_BITS {
            assert(is_nonnegative_bits(0u64)) by (bit_vector);
            Ok(Self { bits: 0 })
        } else if bits >> 63u64 == 0u64 && !(bits > INFINITY_BITS) {
            assert(is_nonnegative_bits(bits)) by {
                crate::float_bits::lemma_nonnegative_bits_split(bits);
            }
            Ok(Self { bits })
        } else {
            assert(!is_nonnegative_bits(bits)) by {
                if bits >> 63u64 == 0u64 {
                    crate::float_bits::lemma_nonnegative_bits_split(bits);
                }
            }
            Err(NonNegativeF64Error { bits })
        }
    }

    /// Wraps a pattern already known to be non-negative.
    pub fn new_unchecked(bits: u64) -> (r: Self)
        requires
            is_nonnegative_bits(bits),
        ensures
            r@ == bits,
    {
        Self { bits }
    }

    /// The value `0.0`.
    pub fn zero() -> (r: Self)
        ensures
            r@ == 0u64,
    {
        assert(is_nonnegative_bits(0u64)) by (bit_vector);
        Self { bits: 0 }
    }

    /// The value `1.0`.
    pub fn one() -> (r: Self)
        ensures
            r@ == ONE_BITS,
    {
        assert(is_nonnegative_bits(ONE_BITS)) by (bit_vector);
        Self { bits: ONE_BITS }
    }

    /// The underlying bit pattern.
    pub fn get(self) -> (r: u64)
        ensures
            r == self@,
    {
        self.bits
    }
}

impl ClosedUnitF64Error {
    /// The rejected bit pattern.
    pub fn bits(&self) -> (r: u64)
        ensures
            r == self.spec_bits(),
    {
        self.bits
    }

    pub closed spec fn spec_bits(&self) -> u64 {
        self.bits
    }
}

impl ClosedUnitF64 {
    /// The bit pattern of every `ClosedUnitF64` lies in `[0, 1]`.
    #[verifier::type_invariant]
    pub open spec fn type_inv(self) -> bool {
        is_nonnegative_bits(self@) && self@ <= ONE_BITS
    }

    /// Accepts exactly the patterns of values `0 <= x <= 1` (NaN
    /// rejected); `-0.0` is accepted and canonicalised to `+0.0`.
    pub fn new(bits: u64) -> (r: Result<Self, ClosedUnitF64Error>)
        ensures
            match r {
                Ok(v) => is_nonnegative_bits(spec_canonical(bits)) && spec_canonical(bits)
                    <= ONE_BITS && v@ == spec_canonical(bits),
                Err(e) => !(is_nonnegative_bits(spec_canonical(bits)) && spec_canonical(bits)
                    <= ONE_BITS) && e.spec_bits() == bits,
            },
    {
        if bits == NEGATIVE_ZERO_BITS {
            assert(is_nonnegative_bits(0u64)) by (bit_vector);
            Ok(Self { bits: 0 })
        } else if bits >> 63u64 == 0u64 && bits <= ONE_BITS {
            assert(is_nonnegative_bits(bits)) by {
                crate::float_bits::lemma_at_most_infinity_not_nan(bits);
            }
            Ok(Self { bits })
        } else {
            assert(bits >> 63u64 != 0u64 ==> !is_nonnegative_bits(bits)) by (bit_vector);
            Err(ClosedUnitF64Error { bits })
        }
    }

    /// Wraps a pattern already known to lie in the closed unit range.
    pub fn new_unchecked(bits: u64) -> (r: Self)
        requires
            is_nonnegative_bits(bits),
            bits <= ONE_BITS,
        ensures
            r@ == bits,
    {
        Self { bits }
    }

    /// The value `0.0`.
    pub fn zero() -> (r: Self)
        ensures
            r@ == 0u64,
    {
        assert(is_nonnegative_bits(0u64)) by (bit_vector);
        Self { bits: 0 }
    }

    /// The value `1.0`.
    pub fn one() -> (r: Self)
        ensures
            r@ == ONE_BITS,
    {
        assert(is_nonnegative_bits(ONE_BITS)) by (bit_vector);
        Self { bits: ONE_BITS }
    }

    /// The underlying bit pattern.
    pub fn get(self) -> (r: u64)
        ensures
            r == self@,
    {
        self.bits
    }
}

impl OpenClosedUnitF64Error {
    /// The rejected bit pattern.
    pub fn bits(&self) -> (r: u64)
        ensures
            r == self.spec_bits(),
    {
        self.bits
    }

    pub closed spec fn spec_bits(&self) -> u64 {
        self.bits
    }
}

impl OpenClosedUnitF64 {
    /// The bit pattern of every `OpenClosedUnitF64` lies in `(0, 1]`.
    #[verifier::type_invariant]
    pub open spec fn type_inv(self) -> bool {
        is_positive_bits(self@) && self@ <= ONE_BITS
    }

    /// Accepts exactly the patterns of values `0 < x <= 1` (NaN rejected).
    pub fn new(bits: u64) -> (r: Result<Self, OpenClosedUnitF64Error>)
        ensures
            match r {
                Ok(v) => is_positive_bits(bits) && bits <= ONE_BITS && v@ == bits,
                Err(e) => !(is_positive_bits(bits) && bits <= ONE_BITS) && e.spec_bits() == bits,
            },
    {
        if bits != 0 && bits >> 63u64 == 0u64 && bits <= ONE_BITS {
            assert(is_positive_bits(bits)) by {
                crate::float_bits::lemma_at_most_infinity_not_nan(bits);
            }
            Ok(Self { bits })
        } else {
            assert(bits >> 63u64 != 0u64 ==> !is_positive_bits(bits)) by (bit_vector);
            Err(OpenClosedUnitF64Error { bits })
        }
    }

    /// Wraps a pattern already known to lie in the half-open unit range.
    pub fn new_unchecked(bits: u64) -> (r: Self)
        requires
            is_positive_bits(bits),
            bits <= ONE_BITS,
        ensures
            r@ == bits,
    {
        Self { bits }
    }

    /// The value `1.0`.
    pub fn one() -> (r: Self)
        ensures
            r@ == ONE_BITS,
    {
        assert(is_positive_bits(ONE_BITS)) by (bit_vector);
        Self { bits: ONE_BITS }
    }

    /// Forgets the upper bound.
    pub fn into_closed_unit(self) -> (r: ClosedUnitF64)
        ensures
            r@ == self@,
    {
        proof {
            use_type_invariant(self);
        }
        ClosedUnitF64 { bits: self.bits }
    }

    /// The underlying bit pattern.
    pub fn get(self) -> (r: u64)
        ensures
            r == self@,
    {
        self.bits
    }
}

/// A habitat capacity in `[1, 2^64]`, stored off by one.
#[derive(Clone, Copy, PartialEq, Eq, Structural, Hash, Debug)]
pub struct OffByOneU64 {
    value_minus_one: u64,
}

/// The rejected quantity, kept for error reporting.
#[derive(Clone, Copy, PartialEq, Eq, Structural, Debug)]
pub struct OffByOneU64Error {
    value: u128,
}

impl View for OffByOneU64 {
    type V = u128;

    closed spec fn view(&self) -> u128 {
        (self.value_minus_one + 1) as u128
    }
}

impl OffByOneU64Error {
    /// The rejected quantity.
    pub fn value(&self) -> (r: u128)
        ensures
            r == self.spec_value(),
    {
        self.value
    }

    pub closed spec fn spec_value(&self) -> u128 {
        self.value
    }
}

impl OffByOneU64 {
    /// Accepts exactly the quantities in `[1, 2^64]`.
    pub fn new(value: u128) -> (r: Result<Self, OffByOneU64Error>)
        ensures
            match r {
                Ok(v) => 1 <= value <= 0x1_0000_0000_0000_0000u128 && v@ == value,
                Err(e) => !(1 <= value <= 0x1_0000_0000_0000_0000u128) && e.spec_value() == value,
            },
    {
        if 1 <= value && value <= 0x1_0000_0000_0000_0000u128 {
            Ok(Self { value_minus_one: (value - 1) as u64 })
        } else {
            Err(OffByOneU64Error { value })
        }
    }

    /// The capacity `1`.
    pub fn one() -> (r: Self)
        ensures
            r@ == 1u128,
    {
        Self { value_minus_one: 0 }
    }

    /// The represented quantity.
    pub fn get(self) -> (r: u128)
        ensures
            r == self@,
    {
        self.value_minus_one as u128 + 1
    }
}

} // verus!
