//! A bit-level model of IEEE-754 double-precision values.
//!
//! Every floating-point quantity in this crate is carried as its raw `u64`
//! bit pattern. For non-negative, non-NaN patterns the unsigned order of the
//! bit patterns coincides with the numeric order of the values they encode;
//! [`lemma_bits_order_is_value_order`] proves this for the finite range by
//! relating each pattern to its value scaled by `2^1074`, which is an
//! integer for every finite double.

use vstd::prelude::*;

verus! {

use vstd::arithmetic::power2::pow2;
use vstd::arithmetic::power2::lemma_pow2_strictly_increases;
use vstd::arithmetic::power2::lemma_pow2_adds;
use vstd::arithmetic::power2::lemma_pow2_pos;
use vstd::arithmetic::mul::lemma_mul_inequality;
use vstd::arithmetic::mul::lemma_mul_strict_inequality;

/// Bit pattern of `-0.0`: only the sign bit set.
pub const NEGATIVE_ZERO_BITS: u64 = 0x8000_0000_0000_0000;
/// Bit pattern of `1.0`.
pub const ONE_BITS: u64 = 0x3ff0_0000_0000_0000;
/// Bit pattern of `+infinity`.
pub const INFINITY_BITS: u64 = 0x7ff0_0000_0000_0000;
/// Mask of the 52 fraction bits.
pub const FRACTION_MASK: u64 = 0x000f_ffff_ffff_ffff;
/// The implicit leading significand bit of a normal double, `2^52`.
pub const IMPLICIT_BIT: u64 = 0x0010_0000_0000_0000;

/// The sign bit of a double bit pattern: `0` for non-negative values.
pub open spec fn spec_sign(bits: u64) -> u64 {
    bits >> 63u64
}

/// The 11 biased exponent bits of a double bit pattern.
pub open spec fn spec_biased_exponent(bits: u64) -> u64 {
    (bits >> 52u64) & 0x7ffu64
}

/// The 52 fraction bits of a double bit pattern.
pub open spec fn spec_fraction(bits: u64) -> u64 {
    bits & FRACTION_MASK
}

/// The pattern encodes a NaN: exponent all ones, non-zero fraction.
pub open spec fn is_nan_bits(bits: u64) -> bool {
    spec_biased_exponent(bits) == 0x7ffu64 && spec_fraction(bits) != 0u64
}

/// The pattern encodes a finite value.
pub open spec fn is_finite_bits(bits: u64) -> bool {
    spec_biased_exponent(bits) != 0x7ffu64
}

/// The pattern encodes `+infinity` or `-infinity`.
pub open spec fn is_infinite_bits(bits: u64) -> bool {
    spec_biased_exponent(bits) == 0x7ffu64 && spec_fraction(bits) == 0u64
}

/// The pattern encodes a value strictly greater than zero
/// (`+infinity` included, both zeros and NaN excluded).
pub open spec fn is_positive_bits(bits: u64) -> bool {
    &&& bits != 0u64
    &&& spec_sign(bits) == 0u64
    &&& !is_nan_bits(bits)
}

/// The pattern encodes a value greater than or equal to zero.
/// `-0.0` is excluded: this crate canonicalises it to `+0.0` on entry.
pub open spec fn is_nonnegative_bits(bits: u64) -> bool {
    &&& spec_sign(bits) == 0u64
    &&& !is_nan_bits(bits)
}

/// The value of a finite pattern, scaled by `2^1074` so that it is an
/// integer: subnormals contribute their fraction directly, normals
/// contribute `(fraction + 2^52) * 2^(exponent - 1)`.
pub open spec fn scaled_value(bits: u64) -> int {
    if spec_biased_exponent(bits) == 0u64 {
        spec_fraction(bits) as int
    } else {
        (spec_fraction(bits) + IMPLICIT_BIT) * pow2((spec_biased_exponent(bits) - 1) as nat)
    }
}

/// A non-negative pattern splits into exponent and fraction fields that
/// reassemble by place value.
pub proof fn lemma_nonnegative_bits_split(bits: u64)
    by (bit_vector)
    requires
        bits >> 63u64 == 0u64,
    ensures
        bits == ((bits >> 52u64) & 0x7ffu64) * 0x0010_0000_0000_0000u64 + (bits
            & 0x000f_ffff_ffff_ffffu64),
        (bits >> 52u64) & 0x7ffu64 <= 0x7ffu64,
        bits & 0x000f_ffff_ffff_ffffu64 <= 0x000f_ffff_ffff_ffffu64,
{
}

/// A non-negative pattern at most the pattern of `+infinity` is not NaN.
pub proof fn lemma_at_most_infinity_not_nan(bits: u64)
    requires
        bits >> 63u64 == 0u64,
        bits <= INFINITY_BITS,
    ensures
        !is_nan_bits(bits),
        is_nonnegative_bits(bits),
{
    assert(bits <= 0x7ff0_0000_0000_0000u64 ==> !((bits >> 52u64) & 0x7ffu64 == 0x7ffu64 && bits
        & 0x000f_ffff_ffff_ffffu64 != 0u64)) by (bit_vector);
}

/// The successor pattern of a non-negative finite pattern is positive.
pub proof fn lemma_successor_is_positive(bits: u64)
    requires
        bits >> 63u64 == 0u64,
        bits < INFINITY_BITS,
    ensures
        is_positive_bits((bits + 1) as u64),
{
    assert(((bits + 1) as u64) != 0u64 && ((bits + 1) as u64) >> 63u64 == 0u64 && ((bits
        + 1) as u64) <= 0x7ff0_0000_0000_0000u64) by (bit_vector)
        requires
            bits >> 63u64 == 0u64 && bits < 0x7ff0_0000_0000_0000u64,
    ;
    lemma_at_most_infinity_not_nan((bits + 1) as u64);
}

/// The scaled value of a finite non-negative pattern grows strictly with
/// its biased exponent, whatever the fractions involved.
proof fn lemma_scaled_value_exponent_dominates(a: u64, b: u64)
    requires
        spec_sign(a) == 0u64,
        spec_sign(b) == 0u64,
        is_finite_bits(a),
        is_finite_bits(b),
        spec_biased_exponent(a) < spec_biased_exponent(b),
    ensures
        scaled_value(a) < scaled_value(b),
{
    lemma_nonnegative_bits_split(a);
    lemma_nonnegative_bits_split(b);
    let ea = spec_biased_exponent(a);
    let eb = spec_biased_exponent(b);
    let fa = spec_fraction(a);
    let fb = spec_fraction(b);
    lemma_pow2_pos((eb - 1) as nat);
    if ea == 0u64 {
        // subnormal against normal: fa < 2^52 <= (fb + 2^52) * 2^(eb - 1)
        assert(IMPLICIT_BIT as int * 1 <= (fb + IMPLICIT_BIT) * pow2((eb - 1) as nat)) by {
            lemma_mul_inequality(1, pow2((eb - 1) as nat) as int, IMPLICIT_BIT as int);
            lemma_mul_inequality(
                IMPLICIT_BIT as int,
                (fb + IMPLICIT_BIT) as int,
                pow2((eb - 1) as nat) as int,
            );
        }
    } else {
        // (fa + 2^52) * 2^(ea - 1) < 2^53 * 2^(ea - 1) = 2^52 * 2^ea
        //                         <= 2^52 * 2^(eb - 1) <= (fb + 2^52) * 2^(eb - 1)
        lemma_pow2_pos((ea - 1) as nat);
        assert(scaled_value(a) < (2 * IMPLICIT_BIT) * pow2((ea - 1) as nat)) by {
            lemma_mul_strict_inequality(
                (fa + IMPLICIT_BIT) as int,
                (2 * IMPLICIT_BIT) as int,
                pow2((ea - 1) as nat) as int,
            );
        }
        assert((2 * IMPLICIT_BIT) * pow2((ea - 1) as nat) == IMPLICIT_BIT * pow2(ea as nat)) by {
            lemma_pow2_adds(1, (ea - 1) as nat);
            vstd::arithmetic::power2::lemma2_to64();
            vstd::arithmetic::mul::lemma_mul_is_associative(
                IMPLICIT_BIT as int,
                2,
                pow2((ea - 1) as nat) as int,
            );
        }
        assert(IMPLICIT_BIT * pow2(ea as nat) <= IMPLICIT_BIT * pow2((eb - 1) as nat)) by {
            if (ea as nat) < ((eb - 1) as nat) {
                lemma_pow2_strictly_increases(ea as nat, (eb - 1) as nat);
            }
            lemma_mul_inequality(
                pow2(ea as nat) as int,
                pow2((eb - 1) as nat) as int,
                IMPLICIT_BIT as int,
            );
        }
        assert(IMPLICIT_BIT * pow2((eb - 1) as nat) <= (fb + IMPLICIT_BIT) * pow2(
            (eb - 1) as nat,
        )) by {
            lemma_mul_inequality(
                IMPLICIT_BIT as int,
                (fb + IMPLICIT_BIT) as int,
                pow2((eb - 1) as nat) as int,
            );
        }
    }
}

/// Locates the highest set bit of a positive quantity below `2^53`.
fn highest_bit_below_53(v: u64) -> (r: u32)
    requires
        1 <= v < 0x20_0000_0000_0000u64,
    ensures
        r < 53,
        pow2(r as nat) <= v < pow2((r + 1) as nat),
{
    let mut h: u32 = 0;
    let mut tmp: u64 = v;
    proof {
        vstd::arithmetic::power2::lemma2_to64();
    }
    while tmp >= 2
        invariant
            1 <= tmp,
            h < 53,
            v < 0x20_0000_0000_0000u64,
            tmp as int == v as int / (pow2(h as nat) as int),
        decreases tmp,
    {
        proof {
            vstd::arithmetic::power2::lemma2_to64();
            vstd::arithmetic::power2::lemma2_to64_rest();
            lemma_pow2_pos(h as nat);
            vstd::arithmetic::div_mod::lemma_div_denominator(v as int, pow2(h as nat) as int, 2);
            lemma_pow2_adds(h as nat, 1);
            vstd::arithmetic::div_mod::lemma_remainder_lower(v as int, pow2(h as nat) as int);
            vstd::arithmetic::mul::lemma_mul_inequality(2, tmp as int, pow2(h as nat) as int);
            vstd::arithmetic::mul::lemma_mul_is_commutative(tmp as int, pow2(h as nat) as int);
            if h + 1 >= 53 {
                vstd::arithmetic::power2::lemma_pow2_strictly_increases(53, (h + 1) as nat);
            }
        }
        tmp = tmp / 2;
        h = h + 1;
    }
    proof {
        lemma_pow2_pos(h as nat);
        vstd::arithmetic::div_mod::lemma_remainder_lower(v as int, pow2(h as nat) as int);
        vstd::arithmetic::div_mod::lemma_remainder_upper(v as int, pow2(h as nat) as int);
        lemma_pow2_adds(h as nat, 1);
    }
    h
}

/// Two to the power `k`, as a 64-bit quantity.
pub fn pow2_u64(k: u32) -> (r: u64)
    requires
        k < 64,
    ensures
        r == pow2(k as nat),
        r >= 1,
{
    let mut r: u64 = 1;
    let mut i: u32 = 0;
    proof {
        vstd::arithmetic::power2::lemma2_to64();
    }
    while i < k
        invariant
            i <= k < 64,
            r == pow2(i as nat),
        decreases k - i,
    {
        proof {
            lemma_pow2_adds(i as nat, 1);
            vstd::arithmetic::power2::lemma2_to64();
            vstd::arithmetic::power2::lemma2_to64_rest();
            if i + 1 < 64 {
                vstd::arithmetic::power2::lemma_pow2_strictly_increases((i + 1) as nat, 64);
            }
        }
        r = r * 2;
        i = i + 1;
    }
    proof {
        lemma_pow2_pos(k as nat);
    }
    r
}

/// The exact double bit pattern of an integer below `2^53`.
pub fn compose_f64_from_u64(n: u64) -> (r: u64)
    requires
        n < 0x20_0000_0000_0000u64,
    ensures
        is_nonnegative_bits(r),
        is_finite_bits(r),
        (n == 0) <==> (r == 0u64),
        n >= 1 ==> is_positive_bits(r) && r >= ONE_BITS,
        r < 0x4340_0000_0000_0000u64,
{
    if n == 0 {
        proof {
            assert(0u64 >> 63u64 == 0u64 && (0u64 >> 52u64) & 0x7ffu64 == 0u64) by (bit_vector);
        }
        return 0;
    }
    let h = highest_bit_below_53(n);
    let shift = 52 - h;
    let p = pow2_u64(shift);
    proof {
        vstd::arithmetic::power2::lemma2_to64_rest();
        lemma_pow2_adds(shift as nat, (h + 1) as nat);
        vstd::arithmetic::power2::lemma_pow2_strictly_increases(shift as nat, 53);
        if ((h + 1) as nat) < 53 {
            vstd::arithmetic::power2::lemma_pow2_strictly_increases((h + 1) as nat, 53);
        }
        vstd::arithmetic::mul::lemma_mul_strict_inequality(
            n as int,
            pow2((h + 1) as nat) as int,
            pow2(shift as nat) as int,
        );
        vstd::arithmetic::mul::lemma_mul_is_commutative(n as int, pow2(shift as nat) as int);
        vstd::arithmetic::mul::lemma_mul_is_commutative(
            pow2((h + 1) as nat) as int,
            pow2(shift as nat) as int,
        );
        vstd::arithmetic::mul::lemma_mul_inequality(
            pow2(h as nat) as int,
            n as int,
            pow2(shift as nat) as int,
        );
        vstd::arithmetic::mul::lemma_mul_is_commutative(pow2(h as nat) as int, pow2(
            shift as nat,
        ) as int);
        lemma_pow2_adds(shift as nat, h as nat);
    }
    let m53 = n * p;
    // 2^52 <= m53 < 2^53
    let be = (h as u64) + 1023;
    let bits = (be << 52u64) | (m53 & FRACTION_MASK);
    proof {
        let bb = bits;
        let bee = be;
        let mm = m53 & FRACTION_MASK;
        assert(1023 <= bee <= 1075 && mm == m53 & 0x000f_ffff_ffff_ffffu64 && bb == (bee << 52u64)
            | mm ==> bb >> 63u64 == 0u64 && (bb >> 52u64) & 0x7ffu64 == bee && bb
            >= 0x3ff0_0000_0000_0000u64 && bb < 0x4340_0000_0000_0000u64) by (bit_vector);
    }
    bits
}

/// The exact double bit pattern of the unit-interval value `k / 2^53`.
pub fn compose_unit_from_u53(k: u64) -> (r: u64)
    requires
        k < 0x20_0000_0000_0000u64,
    ensures
        is_nonnegative_bits(r),
        r < ONE_BITS,
        is_finite_bits(r),
{
    if k == 0 {
        proof {
            assert(0u64 >> 63u64 == 0u64 && (0u64 >> 52u64) & 0x7ffu64 == 0u64) by (bit_vector);
        }
        return 0;
    }
    let whole = compose_f64_from_u64(k);
    proof {
        let w = whole;
        assert(0x3ff0_0000_0000_0000u64 <= w ==> w >= (53u64 << 52u64)) by (bit_vector);
    }
    // dividing by 2^53 subtracts 53 from the biased exponent, which is
    // at least 1023 here, so the result stays normal
    let bits = whole - (53u64 << 52u64);
    proof {
        let w = whole;
        let bb = bits;
        assert((w >> 63u64 == 0u64 && 0x3ff0_0000_0000_0000u64 <= w && w
            < 0x4340_0000_0000_0000u64 && bb == w - (53u64 << 52u64)) ==> (bb >> 63u64 == 0u64 && (
        bb >> 52u64) & 0x7ffu64 >= 1u64 && (bb >> 52u64) & 0x7ffu64 != 0x7ffu64 && bb
            < 0x3ff0_0000_0000_0000u64)) by (bit_vector);
    }
    bits
}

/// Whether the uniform draw `k`, read as the unit-interval value
/// `k / 2^53`, falls below the value whose pattern is `bits`: both sides
/// scaled by `2^1074`, the draw contributes `k * 2^1021`.
pub open spec fn spec_u53_below(k: u64, bits: u64) -> bool {
    k * pow2(1021) < scaled_value(bits)
}

/// Every 53-bit draw lies below the probability one.
pub proof fn lemma_u53_below_one(k: u64)
    requires
        k < 0x20_0000_0000_0000u64,
    ensures
        spec_u53_below(k, ONE_BITS),
{
    assert((ONE_BITS >> 52u64) & 0x7ffu64 == 1023u64 && ONE_BITS & 0x000f_ffff_ffff_ffffu64
        == 0u64) by (bit_vector);
    assert(scaled_value(ONE_BITS) == IMPLICIT_BIT * pow2(1022));
    vstd::arithmetic::power2::lemma2_to64_rest();
    lemma_pow2_adds(53, 1021);
    lemma_pow2_pos(1021);
    lemma_mul_strict_inequality(k as int, pow2(53) as int, pow2(1021) as int);
    vstd::arithmetic::mul::lemma_mul_is_commutative(k as int, pow2(1021) as int);
    vstd::arithmetic::mul::lemma_mul_is_commutative(pow2(53) as int, pow2(1021) as int);
    lemma_pow2_adds(52, 1022);
    vstd::arithmetic::mul::lemma_mul_is_commutative(pow2(52) as int, pow2(1022) as int);
}

/// No draw lies below the probability zero.
pub proof fn lemma_u53_not_below_zero(k: u64)
    ensures
        !spec_u53_below(k, 0u64),
{
    assert(0u64 >> 63u64 == 0u64 && (0u64 >> 52u64) & 0x7ffu64 == 0u64 && 0u64
        & 0x000f_ffff_ffff_ffffu64 == 0u64) by (bit_vector);
    vstd::arithmetic::mul::lemma_mul_nonnegative(k as int, pow2(1021) as int);
}

/// Compares a uniform 53-bit draw against a unit-interval probability,
/// exactly: both sides are dyadic rationals.
pub fn sample_event_below(k: u64, probability: crate::bond::ClosedUnitF64) -> (r: bool)
    requires
        k < 0x20_0000_0000_0000u64,
    ensures
        r == spec_u53_below(k, probability@),
{
    let bits = probability.get();
    proof {
        use_type_invariant(probability);
        lemma_nonnegative_bits_split(bits);
        vstd::arithmetic::mul::lemma_mul_nonnegative(k as int, pow2(1021) as int);
    }
    if bits == ONE_BITS {
        // every draw lies below one: k * 2^1021 < 2^53 * 2^1021 = scaled(1.0)
        proof {
            assert((ONE_BITS >> 52u64) & 0x7ffu64 == 1023u64 && ONE_BITS
                & 0x000f_ffff_ffff_ffffu64 == 0u64 && ONE_BITS >> 63u64 == 0u64) by (bit_vector);
            assert(scaled_value(ONE_BITS) == IMPLICIT_BIT * pow2(1022));
            vstd::arithmetic::power2::lemma2_to64_rest();
            lemma_pow2_adds(53, 1021);
            lemma_pow2_pos(1021);
            vstd::arithmetic::mul::lemma_mul_strict_inequality(
                k as int,
                pow2(53) as int,
                pow2(1021) as int,
            );
            vstd::arithmetic::mul::lemma_mul_is_commutative(k as int, pow2(1021) as int);
            vstd::arithmetic::mul::lemma_mul_is_commutative(pow2(53) as int, pow2(1021) as int);
            vstd::arithmetic::power2::lemma2_to64_rest();
            lemma_pow2_adds(52, 1022);
            vstd::arithmetic::mul::lemma_mul_is_commutative(pow2(52) as int, pow2(1022) as int);
        }
        return true;
    }
    if bits == 0 {
        proof {
            vstd::arithmetic::mul::lemma_mul_nonnegative(k as int, pow2(1021) as int);
        }
        return false;
    }
    // 0 < probability < 1: decompose into mantissa and exponent
    proof {
        assert((ONE_BITS >> 52u64) & 0x7ffu64 == 1023u64 && ONE_BITS & 0x000f_ffff_ffff_ffffu64
            == 0u64 && ONE_BITS >> 63u64 == 0u64) by (bit_vector);
    }
    let d = crate::alias_method::decompose_weight(crate::bond::PositiveF64::new_unchecked(bits));
    proof {
        lemma_bits_order_is_value_order(bits, ONE_BITS);
        assert(scaled_value(ONE_BITS) == IMPLICIT_BIT * pow2(1022));
    }
    // scaled(probability) = m * 2^(g + 1022) with g <= -1
    let ghost g = d.exponent as int;
    let ghost m = d.mantissa as int;
    proof {
        // probability < 1 forces g <= -1: otherwise m * 2^(g+1022) >= 2^52 * 2^1022
        if g >= 0 {
            lemma_pow2_adds(52, 1022);
            vstd::arithmetic::power2::lemma_pow2_adds(1022, (g) as nat);
            vstd::arithmetic::mul::lemma_mul_inequality(
                IMPLICIT_BIT as int,
                m,
                pow2((g + 1022) as nat) as int,
            );
            if g > 0 {
                vstd::arithmetic::power2::lemma_pow2_strictly_increases(1022, (g + 1022) as nat);
            }
            vstd::arithmetic::mul::lemma_mul_inequality(
                pow2(1022) as int,
                pow2((g + 1022) as nat) as int,
                IMPLICIT_BIT as int,
            );
            vstd::arithmetic::mul::lemma_mul_is_commutative(IMPLICIT_BIT as int, pow2(
                (g + 1022) as nat,
            ) as int);
            vstd::arithmetic::mul::lemma_mul_is_commutative(IMPLICIT_BIT as int, pow2(1022) as int);
        }
    }
    let sh = -1 - (d.exponent as i32);
    if k == 0 {
        // zero lies below any positive probability
        proof {
            lemma_pow2_pos((g + 1022) as nat);
            vstd::arithmetic::mul::lemma_mul_inequality(1, m, pow2((g + 1022) as nat) as int);
        }
        return true;
    }
    if sh >= 53 {
        // k >= 1, so k * 2^1021 >= 2^1021 >= 2^(g + 1075) > m * 2^(g + 1022)
        proof {
            lemma_pow2_adds((g + 1022) as nat, 53);
            vstd::arithmetic::power2::lemma2_to64_rest();
            lemma_pow2_pos((g + 1022) as nat);
            vstd::arithmetic::mul::lemma_mul_strict_inequality(
                m,
                pow2(53) as int,
                pow2((g + 1022) as nat) as int,
            );
            vstd::arithmetic::mul::lemma_mul_is_commutative(m, pow2((g + 1022) as nat) as int);
            vstd::arithmetic::mul::lemma_mul_is_commutative(pow2(53) as int, pow2(
                (g + 1022) as nat,
            ) as int);
            if ((g + 1075) as nat) < 1021 {
                vstd::arithmetic::power2::lemma_pow2_strictly_increases((g + 1075) as nat, 1021);
            }
            vstd::arithmetic::mul::lemma_mul_inequality(1, k as int, pow2(1021) as int);
        }
        return false;
    }
    // 0 <= sh < 53: compare k * 2^sh against the mantissa exactly
    let p = pow2_u64(sh as u32);
    proof {
        crate::rng::lemma_u64_product_fits_u128(k as u128, p as u128);
        // k * 2^1021 < m * 2^(g+1022)  <=>  k * 2^sh < m, since 1021 = sh + (g + 1022)
        lemma_pow2_adds((sh) as nat, (g + 1022) as nat);
        lemma_pow2_pos((g + 1022) as nat);
        let pk = pow2((g + 1022) as nat) as int;
        let ps = pow2(sh as nat) as int;
        assert((k as int) * (ps * pk) == ((k as int) * ps) * pk) by {
            vstd::arithmetic::mul::lemma_mul_is_associative(k as int, ps, pk);
        }
        if (k as int) * ps < m {
            vstd::arithmetic::mul::lemma_mul_strict_inequality((k as int) * ps, m, pk);
        }
        if (k as int) * ps >= m {
            vstd::arithmetic::mul::lemma_mul_inequality(m, (k as int) * ps, pk);
        }
    }
    ((k as u128) * (p as u128)) < (d.mantissa as u128)
}

/// For finite, non-negative patterns the unsigned order of the bit
/// patterns coincides with the order of the encoded values.
pub proof fn lemma_bits_order_is_value_order(a: u64, b: u64)
    requires
        is_nonnegative_bits(a),
        is_nonnegative_bits(b),
        is_finite_bits(a),
        is_finite_bits(b),
    ensures
        a < b <==> scaled_value(a) < scaled_value(b),
        a == b <==> scaled_value(a) == scaled_value(b),
{
    lemma_nonnegative_bits_split(a);
    lemma_nonnegative_bits_split(b);
    let ea = spec_biased_exponent(a);
    let eb = spec_biased_exponent(b);
    if ea == eb {
        if ea != 0u64 {
            lemma_pow2_pos((ea - 1) as nat);
            if spec_fraction(a) < spec_fraction(b) {
                lemma_mul_strict_inequality(
                    (spec_fraction(a) + IMPLICIT_BIT) as int,
                    (spec_fraction(b) + IMPLICIT_BIT) as int,
                    pow2((ea - 1) as nat) as int,
                );
            } else if spec_fraction(b) < spec_fraction(a) {
                lemma_mul_strict_inequality(
                    (spec_fraction(b) + IMPLICIT_BIT) as int,
                    (spec_fraction(a) + IMPLICIT_BIT) as int,
                    pow2((ea - 1) as nat) as int,
                );
            }
        }
    } else if ea < eb {
        lemma_scaled_value_exponent_dominates(a, b);
    } else {
        lemma_scaled_value_exponent_dominates(b, a);
    }
}

} // verus!
