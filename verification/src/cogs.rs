//! The remaining pluggable cogs: partitions, the no-op migration cogs,
//! origin sampling, and the fixed event-time sampler of the independent
//! family.

use vstd::prelude::*;

verus! {

use crate::bond::NonNegativeF64;
use crate::bond::PositiveF64;
use crate::float_bits::is_finite_bits;
use crate::habitat::InMemoryHabitat;
use crate::landscape::IndexedLocation;
use crate::landscape::Location;
use crate::lineage::GlobalLineageReference;
use crate::lineage::Lineage;
use crate::lineage::MigratingLineage;
use crate::maths::MathsCore;
use crate::rng::PrimeableRng;
use crate::turnover::UniformTurnoverRate;

/// One member of a partitioning: its rank below the partition count.
#[derive(Clone, Copy, PartialEq, Eq, Structural, Hash, Debug)]
pub struct Partition {
    pub rank: u32,
    pub size: u32,
}

impl Partition {
    /// The single partition of a monolithic run.
    pub fn monolithic() -> (r: Self)
        ensures
            r.rank == 0 && r.size == 1,
    {
        Partition { rank: 0, size: 1 }
    }

    /// The member `rank` of `size` partitions.
    pub fn try_new(rank: u32, size: u32) -> (r: Option<Self>)
        ensures
            match r {
                Some(p) => rank < size && p.rank == rank && p.size == size,
                None => rank >= size,
            },
    {
        if rank < size {
            Some(Partition { rank, size })
        } else {
            None
        }
    }
}

/// The decomposition of a monolithic run: everything belongs to rank
/// zero.
#[derive(Clone, Copy, PartialEq, Eq, Structural, Debug, Default)]
pub struct MonolithicDecomposition {
}

impl MonolithicDecomposition {
    /// The whole landscape as one subdomain.
    pub fn get_subdomain(&self) -> (r: Partition)
        ensures
            r.rank == 0 && r.size == 1,
    {
        Partition::monolithic()
    }

    /// Every location maps to rank zero.
    pub fn map_location_to_subdomain_rank(&self, location: &Location, habitat: &InMemoryHabitat)
        -> (r: u32)
        ensures
            r == 0,
    {
        0
    }
}

/// Surfaces lineages received from other partitions, in event-time
/// order.
pub trait ImmigrationEntry {
    /// Takes the next immigrating lineage, if one is pending.
    fn next_optional_immigration(&mut self) -> Option<MigratingLineage>;

    /// Inspects the next immigrating lineage without taking it.
    fn peek_next_immigration(&self) -> Option<MigratingLineage>;
}

/// The immigration entry of a monolithic run: nothing ever immigrates.
#[derive(Clone, Copy, PartialEq, Eq, Structural, Debug, Default)]
pub struct NeverImmigrationEntry {
}

impl ImmigrationEntry for NeverImmigrationEntry {
    fn next_optional_immigration(&mut self) -> (r: Option<MigratingLineage>)
        ensures
            r is None,
    {
        Option::None
    }

    fn peek_next_immigration(&self) -> (r: Option<MigratingLineage>)
        ensures
            r is None,
    {
        Option::None
    }
}

/// The emigration exit of a monolithic run: every dispersal stays
/// local, handed back unchanged.
#[derive(Clone, Copy, PartialEq, Eq, Structural, Debug, Default)]
pub struct NeverEmigrationExit {
}

impl NeverEmigrationExit {
    /// The lineage never emigrates: the dispersal context comes back
    /// exactly as it went in.
    pub fn optionally_emigrate(
        &mut self,
        global_reference: GlobalLineageReference,
        dispersal_origin: IndexedLocation,
        dispersal_target: Location,
        prior_time: NonNegativeF64,
        event_time: PositiveF64,
    ) -> (r: Option<(GlobalLineageReference, IndexedLocation, Location, NonNegativeF64,
        PositiveF64)>)
        ensures
            r == Some((global_reference, dispersal_origin, dispersal_target, prior_time,
            event_time)),
    {
        Some((global_reference, dispersal_origin, dispersal_target, prior_time, event_time))
    }
}

/// The fixed-step event-time sampler of the independent family: event
/// times tick on the lattice `k / lambda`, and the stream is primed
/// from the lineage identity and the step number, so independent
/// workers reproduce the same draw without communication.
#[derive(Clone, Copy, PartialEq, Eq, Structural, Debug, Default)]
pub struct FixedEventTimeSampler {
}

impl FixedEventTimeSampler {
    /// The next lattice event time weakly after `time`: the lattice
    /// tick `(floor(time * lambda) + 1) / lambda`, computed over the
    /// embedder's arithmetic and clamped so the result can never fall
    /// below `time`, not even under adverse rounding. Before the draw,
    /// `rng` is re-seeded from the slot's unique number and the tick
    /// index, so any worker holding the same seed reconstructs the same
    /// stream for this lineage and epoch without communication.
    pub fn next_event_time_at_indexed_location_weakly_after<M: MathsCore, G: PrimeableRng>(
        &self,
        indexed_location: &IndexedLocation,
        time: NonNegativeF64,
        habitat: &InMemoryHabitat,
        rng: &mut G,
        turnover_rate: &UniformTurnoverRate,
    ) -> (r: NonNegativeF64)
        requires
            habitat.well_formed(),
            habitat.spec_is_indexed_location_habitable(*indexed_location),
            is_finite_bits(turnover_rate.turnover_rate@),
        ensures
            r@ >= time@,
    {
        proof {
            use_type_invariant(time);
            use_type_invariant(turnover_rate.turnover_rate);
        }
        let lambda = turnover_rate.turnover_rate;
        let scaled = M::mul_nonneg(time.get(), lambda.get());
        let floored = M::floor_to_u64(scaled);
        let time_step = if floored == u64::MAX {
            floored
        } else {
            floored + 1
        };
        let location_index = habitat.map_indexed_location_to_u64_injective(indexed_location);
        rng.prime_with(location_index, time_step);
        let numerator = M::u64_to_f64(time_step);
        let quotient = M::div_nonneg(numerator, lambda.get());
        // non-negative patterns order as their values do, so the larger
        // pattern is the weakly-after lattice time
        if quotient >= time.get() {
            NonNegativeF64::new_unchecked(quotient)
        } else {
            time
        }
    }
}

/// Yields the starting lineages of a fresh simulation: one per
/// habitable slot the pre-sampler keeps.
pub trait TrustedOriginSampler {
    /// How many lineages the sampler can still yield, at most.
    fn full_upper_bound_size_hint(&self) -> u64;

    /// The next starting lineage, each with a process-wide unique
    /// reference and a valid habitable slot.
    fn next_origin(&mut self) -> Option<Lineage>;
}

/// Keeps every `stride`-th habitable slot of the landscape, walking the
/// slot numbering in order.
#[derive(PartialEq, Eq, Debug)]
pub struct InMemoryOriginSampler {
    pub habitat: InMemoryHabitat,
    pub next_index: u64,
    pub stride: u64,
}

impl InMemoryOriginSampler {
    /// Samples every slot (`stride` one), or every `stride`-th slot.
    pub fn new(habitat: InMemoryHabitat, stride: u64) -> (r: Option<Self>)
        ensures
            match r {
                Some(s) => {
                    &&& s.habitat == habitat
                    &&& s.habitat.well_formed()
                    &&& s.next_index == 0
                    &&& s.stride == stride
                    &&& stride >= 1
                },
                None => stride == 0 || !habitat.well_formed(),
            },
    {
        if stride == 0 {
            return None;
        }
        if habitat_well_formed_check(&habitat) {
            Some(InMemoryOriginSampler { habitat, next_index: 0, stride })
        } else {
            None
        }
    }
}

/// Checks the habitat invariant slot by slot, so callers holding an
/// arbitrary grid can establish it.
pub fn habitat_well_formed_check(habitat: &InMemoryHabitat) -> (r: bool)
    ensures
        r == habitat.well_formed(),
{
    if habitat.width == 0 || habitat.height == 0 {
        return false;
    }
    proof {
        crate::habitat::lemma_u32_product_fits_u64(habitat.width as u64, habitat.height as u64);
    }
    let area = (habitat.width as u64) * (habitat.height as u64);
    if habitat.habitat.len() as u64 != area {
        return false;
    }
    if habitat.cumulative.len() == 0 || habitat.cumulative.len() - 1 != habitat.habitat.len() {
        return false;
    }
    if habitat.cumulative[0] != 0 {
        return false;
    }
    let mut i: usize = 0;
    while i < habitat.habitat.len()
        invariant
            i <= habitat.habitat@.len(),
            habitat.cumulative@.len() == habitat.habitat@.len() + 1,
            forall|j: int|
                0 <= j < i ==> #[trigger] habitat.cumulative@[j + 1] == habitat.cumulative@[j]
                    + habitat.habitat@[j],
        decreases habitat.habitat@.len() - i,
    {
        let expected = habitat.cumulative[i];
        let step = habitat.habitat[i] as u64;
        if expected > u64::MAX - step || habitat.cumulative[i + 1] != expected + step {
            proof {
                if habitat.well_formed() {
                    assert(habitat.cumulative@[i as int + 1] == habitat.cumulative@[i as int]
                        + habitat.habitat@[i as int]);
                }
            }
            return false;
        }
        i = i + 1;
    }
    habitat.cumulative[habitat.habitat.len()] >= 1
}

impl TrustedOriginSampler for InMemoryOriginSampler {
    /// At most one lineage per `stride` slots is ever yielded: the
    /// total habitat divided by the stride, rounded up.
    fn full_upper_bound_size_hint(&self) -> (r: u64)
        ensures
            (self.habitat.well_formed() && self.stride >= 1) ==> r as int == (
            self.habitat.spec_total_habitat() + self.stride - 1) as int / self.stride as int,
    {
        if self.stride == 0 || !habitat_well_formed_check(&self.habitat) {
            return 0;
        }
        let total = self.habitat.cumulative[self.habitat.cumulative.len() - 1];
        let floor_part = total / self.stride;
        let remainder = total % self.stride;
        proof {
            let t = total as int;
            let d = self.stride as int;
            let q = floor_part as int;
            let m = remainder as int;
            vstd::arithmetic::div_mod::lemma_fundamental_div_mod(t, d);
            vstd::arithmetic::div_mod::lemma_mod_bound(t, d);
            if m == 0 {
                vstd::arithmetic::div_mod::lemma_div_multiples_vanish_fancy(q, d - 1, d);
            } else {
                vstd::arithmetic::mul::lemma_mul_is_distributive_add(d, q, 1);
                vstd::arithmetic::div_mod::lemma_div_multiples_vanish_fancy(q + 1, m - 1, d);
                vstd::arithmetic::mul::lemma_mul_inequality(1, d, q);
                vstd::arithmetic::mul::lemma_mul_is_commutative(d, q);
            }
        }
        if remainder == 0 {
            floor_part
        } else {
            floor_part + 1
        }
    }

    /// Walks the slot numbering by `stride`: each yielded lineage sits
    /// on the habitable slot its reference names, carries a fresh
    /// clock, and the cursor advances by the stride, so references
    /// never repeat.
    fn next_origin(&mut self) -> (r: Option<Lineage>)
        ensures
            final(self).habitat == old(self).habitat,
            final(self).stride == old(self).stride,
            match r {
                Some(lineage) => {
                    &&& old(self).habitat.well_formed()
                    &&& old(self).next_index < old(self).habitat.spec_total_habitat()
                    &&& lineage.global_reference.id == old(self).next_index
                    &&& lineage.last_event_time@ == 0u64
                    &&& old(self).habitat.spec_is_indexed_location_habitable(
                        lineage.indexed_location,
                    )
                    &&& old(self).habitat.spec_map_indexed_location(lineage.indexed_location)
                        == old(self).next_index
                    &&& final(self).next_index as int == vstd::math::min(
                        old(self).habitat.spec_total_habitat() as int,
                        old(self).next_index + old(self).stride,
                    )
                },
                None => {
                    ||| !old(self).habitat.well_formed()
                    ||| old(self).next_index >= old(self).habitat.spec_total_habitat()
                },
            },
    {
        if !habitat_well_formed_check(&self.habitat) {
            return Option::None;
        }
        let total = self.habitat.cumulative[self.habitat.cumulative.len() - 1];
        if self.next_index >= total {
            return Option::None;
        }
        let indexed_location = self.habitat.index_to_indexed_location(self.next_index);
        let lineage = Lineage::new(
            GlobalLineageReference { id: self.next_index },
            indexed_location,
        );
        if self.stride > total - self.next_index {
            self.next_index = total;
        } else {
            self.next_index = self.next_index + self.stride;
        }
        Some(lineage)
    }
}

/// A packed half-open index range of an alias sampling table.
#[derive(Clone, Copy, PartialEq, Eq, Structural, Hash, Debug)]
pub struct AliasSamplerRange {
    pub start: usize,
    pub end: usize,
}

impl AliasSamplerRange {
    /// The range `[start, end)`.
    pub fn new(start: usize, end: usize) -> (r: Self)
        ensures
            r.start == start && r.end == end,
    {
        AliasSamplerRange { start, end }
    }
}

/// The compile-time parameters an algorithm carries: its argument
/// bundle and its error type.
pub trait AlgorithmParamters {
    type Arguments;

    type Error;
}

/// The Gillespie family of algorithms over the uniform-turnover
/// in-memory scenario.
#[derive(Clone, Copy, PartialEq, Eq, Structural, Debug, Default)]
pub struct GillespieAlgorithm {
}

/// Why launching an algorithm failed.
#[derive(Clone, Copy, PartialEq, Eq, Structural, Debug)]
pub enum GillespieAlgorithmError {
    EmptyLandscape,
}

impl AlgorithmParamters for GillespieAlgorithm {
    type Arguments = ();

    type Error = GillespieAlgorithmError;
}

} // verus!
