//! The deterministic pseudo-random stream the simulation consumes.
//!
//! [`RngCore`] is the interface every random-number generator has to
//! offer; the engine snapshots and restores a generator through
//! [`RngCore::backup`], which is what makes pausing and resuming a
//! simulation exact. [`WyHash`] is the crate's own multiply-fold
//! generator; it can in addition be primed from a lineage identity and a
//! logical time step, so that independent workers reproduce the same
//! draw without communication.

use vstd::prelude::*;

verus! {

use vstd::arithmetic::div_mod::lemma_multiply_divide_lt;
use vstd::arithmetic::power2::pow2;
use vstd::bits::lemma_u128_shr_is_div;
use vstd::bits::lemma_u64_shr_is_div;

/// A deterministic source of uniform 64-bit draws. The engine trusts an
/// implementation on two counts only: `backup` hands back an exact copy
/// of the generator state, and the stream is a pure function of that
/// state.
pub trait RngCore: Sized {
    /// The next 64-bit draw of the stream.
    fn sample_u64(&mut self) -> u64;

    /// An exact copy of the generator, used to roll the stream back to
    /// the state before a speculative draw.
    fn backup(&self) -> (r: Self)
        ensures
            r == *self,
    ;
}

/// A generator that can in addition be re-seeded from a lineage identity
/// and a logical time step, so that any worker holding the same seed
/// reconstructs the same draw for that lineage and step.
pub trait PrimeableRng: RngCore {
    /// Re-seeds the stream deterministically from `(location_index, time_step)`.
    fn prime_with(&mut self, location_index: u64, time_step: u64);
}

/// The first additive constant of the wyhash round function.
pub const WYHASH_PRIME_0: u64 = 0xa076_1d64_78bd_642f;
/// The second (xor) constant of the wyhash round function.
pub const WYHASH_PRIME_1: u64 = 0xe703_7ed1_a0b4_28db;

/// The crate's own wyhash-style generator: a counter stepped by a large
/// odd constant, folded through a 64x64 -> 128 bit multiplication.
#[derive(Clone, Copy, PartialEq, Eq, Structural, Debug)]
pub struct WyHash {
    seed: u64,
    state: u64,
}

/// The product of two 64-bit quantities fits in 128 bits.
pub proof fn lemma_u64_product_fits_u128(a: u128, b: u128)
    by (nonlinear_arith)
    requires
        a <= 0xffff_ffff_ffff_ffffu128,
        b <= 0xffff_ffff_ffff_ffffu128,
    ensures
        a * b <= 0xffff_ffff_ffff_ffffu128 * 0xffff_ffff_ffff_ffffu128,
        a * b <= u128::MAX,
{
}

/// The multiply-xor-fold at the heart of the generator.
fn wyhash_mix(a: u64, b: u64) -> u64 {
    proof {
        lemma_u64_product_fits_u128(a as u128, b as u128);
    }
    let t: u128 = (a as u128) * (b as u128);
    #[verifier::truncate]
    (((t >> 64u128) ^ t) as u64)
}

impl WyHash {
    /// Starts the stream determined by `seed`.
    pub fn seed_from_u64(seed: u64) -> (r: Self)
        ensures
            r.spec_seed() == seed,
    {
        WyHash { seed, state: seed }
    }

    pub closed spec fn spec_seed(self) -> u64 {
        self.seed
    }
}

impl RngCore for WyHash {
    fn sample_u64(&mut self) -> u64 {
        self.state = self.state.wrapping_add(WYHASH_PRIME_0);
        wyhash_mix(self.state, self.state ^ WYHASH_PRIME_1)
    }

    fn backup(&self) -> (r: Self)
        ensures
            r == *self,
    {
        WyHash { seed: self.seed, state: self.state }
    }
}

impl PrimeableRng for WyHash {
    fn prime_with(&mut self, location_index: u64, time_step: u64) {
        self.state = wyhash_mix(
            self.seed ^ location_index,
            wyhash_mix(time_step ^ WYHASH_PRIME_1, WYHASH_PRIME_0),
        );
    }
}

/// A uniform index below `length`, by the widening multiply-shift
/// reduction of one 64-bit draw.
pub fn sample_index<G: RngCore>(rng: &mut G, length: usize) -> (r: usize)
    requires
        length >= 1,
    ensures
        r < length,
{
    let x = rng.sample_u64();
    proof {
        lemma_u64_product_fits_u128(x as u128, length as u128);
    }
    let wide: u128 = (x as u128) * (length as u128);
    let reduced: u128 = wide >> 64u128;
    proof {
        lemma_u128_shr_is_div(wide, 64u128);
        assert(pow2(64) == 0x1_0000_0000_0000_0000) by {
            vstd::arithmetic::power2::lemma2_to64_rest();
        }
        assert(wide < 0x1_0000_0000_0000_0000u128 * (length as u128)) by {
            vstd::arithmetic::mul::lemma_mul_strict_inequality(
                x as int,
                0x1_0000_0000_0000_0000,
                length as int,
            );
        }
        lemma_multiply_divide_lt(wide as int, 0x1_0000_0000_0000_0000, length as int);
    }
    reduced as usize
}

/// A uniform quantity below `length`, by the widening multiply-shift
/// reduction of one 64-bit draw.
pub fn sample_index_u64<G: RngCore>(rng: &mut G, length: u64) -> (r: u64)
    requires
        length >= 1,
    ensures
        r < length,
{
    let x = rng.sample_u64();
    proof {
        lemma_u64_product_fits_u128(x as u128, length as u128);
    }
    let wide: u128 = (x as u128) * (length as u128);
    let reduced: u128 = wide >> 64u128;
    proof {
        lemma_u128_shr_is_div(wide, 64u128);
        assert(pow2(64) == 0x1_0000_0000_0000_0000) by {
            vstd::arithmetic::power2::lemma2_to64_rest();
        }
        assert(wide < 0x1_0000_0000_0000_0000u128 * (length as u128)) by {
            vstd::arithmetic::mul::lemma_mul_strict_inequality(
                x as int,
                0x1_0000_0000_0000_0000,
                length as int,
            );
        }
        lemma_multiply_divide_lt(wide as int, 0x1_0000_0000_0000_0000, length as int);
    }
    reduced as u64
}

/// A uniform draw of the 53 high bits of `sample_u64`, as the original
/// generators hand a unit-interval double its significand.
pub fn sample_u53<G: RngCore>(rng: &mut G) -> (r: u64)
    ensures
        r < 0x20_0000_0000_0000u64,
{
    let x = rng.sample_u64();
    proof {
        lemma_u64_shr_is_div(x, 11u64);
        assert(pow2(11) == 2048) by {
            vstd::arithmetic::power2::lemma2_to64();
        }
    }
    x >> 11u64
}

} // verus!
