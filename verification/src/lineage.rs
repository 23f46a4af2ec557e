//! Lineages: the backwards-time traces of sampled individuals.

use vstd::prelude::*;

verus! {

use crate::bond::NonNegativeF64;
use crate::bond::PositiveF64;
use crate::landscape::IndexedLocation;
use crate::landscape::Location;
use crate::rng::RngCore;
use crate::rng::sample_u53;

/// A process-wide stable identifier of one lineage; it survives
/// dispersal and migration unchanged.
#[derive(Clone, Copy, PartialEq, Eq, Structural, Hash, Debug)]
pub struct GlobalLineageReference {
    pub id: u64,
}

impl GlobalLineageReference {
    /// The reference with raw identifier `id`.
    pub fn new(id: u64) -> (r: Self)
        ensures
            r.id == id,
    {
        GlobalLineageReference { id }
    }
}

/// An opaque handle onto a lineage inside a store; never ownership of
/// the lineage itself.
pub trait LineageReference: Sized + PartialEq + Eq + core::hash::Hash {
}

impl LineageReference for GlobalLineageReference {
}

/// One active lineage: its stable reference, the slot it currently
/// occupies, and the time of its last event, which never decreases over
/// the lineage's history.
#[derive(Clone, Copy, PartialEq, Eq, Structural, Hash, Debug)]
pub struct Lineage {
    pub global_reference: GlobalLineageReference,
    pub indexed_location: IndexedLocation,
    pub last_event_time: NonNegativeF64,
}

impl Lineage {
    /// A lineage that has seen no event yet, anchored at `indexed_location`.
    pub fn new(global_reference: GlobalLineageReference, indexed_location: IndexedLocation) -> (r:
        Self)
        ensures
            r.global_reference == global_reference,
            r.indexed_location == indexed_location,
            r.last_event_time@ == 0u64,
    {
        Lineage { global_reference, indexed_location, last_event_time: NonNegativeF64::zero() }
    }
}

/// Which side wins when an immigration and a local event carry exactly
/// the same event time.
#[derive(Clone, Copy, PartialEq, Eq, Structural, Hash, Debug)]
pub enum TieBreaker {
    PreferImmigrant,
    PreferLocal,
}

/// What a dispersal found at its target slot: nothing, a collision with
/// the lineage holding the slot, or — under an independent store that
/// cannot see its neighbours — possibly either.
#[derive(Clone, Copy, PartialEq, Eq, Structural, Hash, Debug)]
pub enum LineageInteraction {
    NoCoalescence,
    Maybe,
    Coalescence(GlobalLineageReference),
}

/// The uniform draw a migrating lineage carries with it, so that the
/// arrival partition resolves coalescence from the sender's randomness
/// and duplicated migration cannot diverge.
#[derive(Clone, Copy, PartialEq, Eq, Structural, Hash, Debug)]
pub struct CoalescenceRngSample {
    pub sample_u53: u64,
}

impl CoalescenceRngSample {
    /// The draw is always a 53-bit quantity.
    pub open spec fn well_formed(&self) -> bool {
        self.sample_u53 < 0x20_0000_0000_0000u64
    }

    /// Captures one uniform draw from `rng`.
    pub fn new<G: RngCore>(rng: &mut G) -> (r: Self)
        ensures
            r.well_formed(),
    {
        CoalescenceRngSample { sample_u53: sample_u53(rng) }
    }

    /// The draw scaled into `[0, length)`.
    pub fn sample_coalescence_index(&self, length: u32) -> (r: u32)
        requires
            self.well_formed(),
            length >= 1,
        ensures
            r < length,
    {
        proof {
            crate::rng::lemma_u64_product_fits_u128(self.sample_u53 as u128, length as u128);
        }
        let wide: u128 = (self.sample_u53 as u128) * (length as u128);
        let reduced: u128 = wide >> 53u128;
        proof {
            vstd::bits::lemma_u128_shr_is_div(wide, 53u128);
            assert(vstd::arithmetic::power2::pow2(53) == 0x20_0000_0000_0000) by {
                vstd::arithmetic::power2::lemma2_to64_rest();
            }
            vstd::arithmetic::mul::lemma_mul_strict_inequality(
                self.sample_u53 as int,
                0x20_0000_0000_0000,
                length as int,
            );
            vstd::arithmetic::div_mod::lemma_multiply_divide_lt(
                wide as int,
                0x20_0000_0000_0000,
                length as int,
            );
        }
        reduced as u32
    }
}

/// A lineage in transit between partitions: the lineage itself, where
/// it is headed, the time of the dispersal that sent it, the tie-break
/// rule for simultaneous arrivals, and the sender's coalescence draw.
#[derive(Clone, Copy, PartialEq, Eq, Structural, Hash, Debug)]
pub struct MigratingLineage {
    pub global_reference: GlobalLineageReference,
    pub dispersal_origin: IndexedLocation,
    pub dispersal_target: Location,
    pub prior_time: NonNegativeF64,
    pub event_time: PositiveF64,
    pub coalescence_rng_sample: CoalescenceRngSample,
    pub tie_breaker: TieBreaker,
}

} // verus!
