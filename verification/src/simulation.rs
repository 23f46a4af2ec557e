//! The event-driven simulation engine.
//!
//! A [`Simulation`] owns its cogs exclusively: the habitat, the uniform
//! turnover and speciation cogs, the random stream, the lineage store,
//! the dynamic weighted scheduler, and the immigration queue. Each step
//! either commits one local event — speciation, dispersal, coalescence
//! or emigration — or consumes one immigrating lineage, whichever comes
//! first in event time.
//!
//! The engine's invariant ties the scheduler to the store slot by slot,
//! and its contracts state the two properties the event log lives by:
//! per lineage, event times strictly increase and each record's prior
//! time is the previous record's event time; and lineages are conserved
//! — every lineage sampled in is accounted for by a speciation, a
//! coalescence, an emigration, or survival.

use vstd::prelude::*;

verus! {

use crate::alias_method::DynamicAliasMethodStackSampler;
use crate::alias_method::MANTISSA_LIMIT;
use crate::alias_method::lemma_stack_total_positive;
use crate::alias_method::lemma_sum_of_weights_bounds;
use crate::alias_method::spec_decomposed_exponent;
use crate::bond::NonNegativeF64;
use crate::bond::PositiveF64;
use crate::coalescence::ConditionalCoalescenceSampler;
use crate::dispersal::InMemoryCumulativeDispersalSampler;
use crate::event::DispersalEvent;
use crate::event::PackedEvent;
use crate::event::SpeciationEvent;
use crate::event::spec_count_terminal;
use crate::event::spec_events_of;
use crate::event::spec_is_event_chain;
use crate::float_bits::INFINITY_BITS;
use crate::float_bits::ONE_BITS;
use crate::float_bits::is_finite_bits;
use crate::float_bits::lemma_u53_below_one;
use crate::float_bits::lemma_u53_not_below_zero;
use crate::float_bits::is_nonnegative_bits;
use crate::float_bits::compose_f64_from_u64;
use crate::float_bits::sample_event_below;
use crate::habitat::InMemoryHabitat;
use crate::lineage::CoalescenceRngSample;
use crate::lineage::GlobalLineageReference;
use crate::lineage::Lineage;
use crate::lineage::LineageInteraction;
use crate::lineage::MigratingLineage;
use crate::lineage::TieBreaker;
use crate::maths::MathsCore;
use crate::rng::RngCore;
use crate::rng::sample_u53;
use crate::speciation::UniformSpeciationProbability;
use crate::store::ClassicalLineageStore;
use crate::turnover::UniformTurnoverRate;

/// A prefix of a prefix is a prefix of the whole.
pub proof fn lemma_prefix_transitive<A>(a: Seq<A>, b: Seq<A>, c: Seq<A>)
    requires
        a.len() <= b.len(),
        b.len() <= c.len(),
        c.subrange(0, b.len() as int) == b,
        b.subrange(0, a.len() as int) == a,
    ensures
        c.subrange(0, a.len() as int) == a,
{
    assert forall|i: int| 0 <= i < a.len() implies c.subrange(0, a.len() as int)[i] == a[i] by {
        assert(c.subrange(0, b.len() as int)[i] == c[i]);
        assert(b.subrange(0, a.len() as int)[i] == b[i]);
    }
    assert(c.subrange(0, a.len() as int) =~= a);
}

/// Whether a pending immigration commits before the local candidate
/// event: on a strictly earlier immigration time, or on an exact tie
/// that the migrant's carried tie-breaker resolves in its favour.
/// Patterns of positive times order as their values do, so the bit
/// comparison below is the numeric comparison.
pub open spec fn spec_immigration_wins(
    immigration: Option<(PositiveF64, TieBreaker)>,
    local: Option<PositiveF64>,
) -> bool {
    match (immigration, local) {
        (Option::None, _) => false,
        (Option::Some(_), Option::None) => true,
        (Option::Some((immigration_time, tie_breaker)), Option::Some(local_time)) => {
            ||| immigration_time@ < local_time@
            ||| (immigration_time@ == local_time@ && tie_breaker == TieBreaker::PreferImmigrant)
        },
    }
}

/// The engine's per-step arbitration between the peeked immigration and
/// the candidate local event.
pub fn decide_immigration_wins(
    immigration: Option<(PositiveF64, TieBreaker)>,
    local: Option<PositiveF64>,
) -> (r: bool)
    ensures
        r == spec_immigration_wins(immigration, local),
{
    match (immigration, local) {
        (Option::None, _) => false,
        (Option::Some(_), Option::None) => true,
        (Option::Some((immigration_time, tie_breaker)), Option::Some(local_time)) => {
            immigration_time.get() < local_time.get() || (immigration_time.get()
                == local_time.get() && matches!(tie_breaker, TieBreaker::PreferImmigrant))
        },
    }
}

/// Shifting a residue before reducing again equals shifting the whole
/// quantity: `(x % m + c) % m == (x + c) % m`.
proof fn lemma_mod_shift(x: int, c: int, m: int)
    requires
        m > 0,
    ensures
        (x % m + c) % m == (x + c) % m,
{
    vstd::arithmetic::div_mod::lemma_fundamental_div_mod(x, m);
    vstd::arithmetic::div_mod::lemma_mod_multiples_vanish(x / m, x % m + c, m);
}

/// The exceptional entry is a true failure of its lineage against the
/// landscape and the admitted store: the lineage is one of the inputs
/// and sits outside the habitat, beyond its deme's capacity, or in
/// collision — by slot or by reference — with an admitted lineage.
pub open spec fn spec_exceptional_entry_sound(
    entry: crate::fixup::ExceptionalLineage,
    inputs: Seq<Lineage>,
    habitat: &InMemoryHabitat,
    store: &ClassicalLineageStore,
) -> bool {
    match entry {
        crate::fixup::ExceptionalLineage::OutOfHabitat(l) => inputs.contains(l) && !(
        habitat.spec_contains(l.indexed_location.location) && habitat.spec_habitat_at(
            l.indexed_location.location,
        ) > 0),
        crate::fixup::ExceptionalLineage::OutOfDeme(l) => inputs.contains(l)
            && habitat.spec_contains(l.indexed_location.location) && habitat.spec_habitat_at(
            l.indexed_location.location,
        ) > 0 && l.indexed_location.index >= habitat.spec_habitat_at(l.indexed_location.location),
        crate::fixup::ExceptionalLineage::Coalescence { child, parent } => inputs.contains(child)
            && habitat.spec_is_indexed_location_habitable(child.indexed_location) && exists|s: int|
            0 <= s < store.lineages@.len() && (#[trigger] store.lineages@[s]) is Some
                && store.lineages@[s]->Some_0.global_reference == parent && (
            store.lineages@[s]->Some_0.indexed_location == child.indexed_location
                || store.lineages@[s]->Some_0.global_reference == child.global_reference),
    }
}

/// Whether the simulation has ended: no active lineage and no pending
/// immigration.
pub enum Status {
    Done,
    Paused,
}

/// The whole simulation state for the uniform-rate in-memory scenario.
pub struct Simulation<M: MathsCore, G: RngCore> {
    pub maths: core::marker::PhantomData<M>,
    pub habitat: InMemoryHabitat,
    pub dispersal_sampler: InMemoryCumulativeDispersalSampler,
    pub turnover_rate: UniformTurnoverRate,
    pub speciation_probability: UniformSpeciationProbability,
    pub rng: G,
    pub lineage_store: ClassicalLineageStore,
    pub active_lineage_sampler: DynamicAliasMethodStackSampler<u64>,
    pub immigration_entry: Vec<MigratingLineage>,
    pub partition_rank: u32,
    pub partition_size: u32,
    pub migration_balance: u64,
    pub global_time: NonNegativeF64,
}

impl<M: MathsCore, G: RngCore> Simulation<M, G> {
    /// The engine invariant: every cog is well-formed, the scheduler
    /// holds exactly the active slots, all scheduler weights share the
    /// turnover rate's exponent, no active lineage is ahead of the
    /// global clock, and every queued immigrant is sound.
    pub open spec fn spec_invariant(&self) -> bool {
        &&& self.habitat.well_formed()
        &&& self.dispersal_sampler.well_formed(&self.habitat)
        &&& self.lineage_store.well_formed(&self.habitat)
        &&& self.active_lineage_sampler.well_formed()
        &&& is_finite_bits(self.turnover_rate.turnover_rate@)
        &&& is_finite_bits(self.global_time@)
        &&& self.partition_size >= 1
        &&& self.partition_rank < self.partition_size
        &&& forall|s: u64|
            #[trigger] self.active_lineage_sampler.spec_events().count(s) == (
            if s < self.lineage_store.lineages@.len() && self.lineage_store.lineages@[s as int]
                is Some {
                1nat
            } else {
                0nat
            })
        &&& self.active_lineage_sampler.spec_events().len()
            == self.lineage_store.spec_active_count()
        &&& forall|i: int|
            0 <= i < self.active_lineage_sampler.exponents@.len()
                ==> #[trigger] self.active_lineage_sampler.exponents@[i] as int
                == spec_decomposed_exponent(self.turnover_rate.turnover_rate@)
        &&& forall|s: int|
            0 <= s < self.lineage_store.lineages@.len() && self.lineage_store.lineages@[s] is Some
                ==> (#[trigger] self.lineage_store.lineages@[s])->Some_0.last_event_time@
                <= self.global_time@
        &&& forall|i: int|
            0 <= i < self.immigration_entry@.len() ==> {
                let m = #[trigger] self.immigration_entry@[i];
                &&& m.coalescence_rng_sample.well_formed()
                &&& is_finite_bits(m.event_time@)
                &&& self.habitat.spec_contains(m.dispersal_target)
                &&& self.habitat.spec_habitat_at(m.dispersal_target) > 0
            }
        &&& forall|i: int, s: int|
            0 <= i < self.immigration_entry@.len() && 0 <= s < self.lineage_store.lineages@.len()
                && self.lineage_store.lineages@[s] is Some ==> (
            #[trigger] self.immigration_entry@[i]).global_reference != (
            #[trigger] self.lineage_store.lineages@[s])->Some_0.global_reference
        &&& forall|i: int, j: int|
            0 <= i < j < self.immigration_entry@.len() ==> (
            #[trigger] self.immigration_entry@[i]).global_reference != (
            #[trigger] self.immigration_entry@[j]).global_reference
        &&& self.lineage_store.lineages@.len() + self.immigration_entry@.len()
            < 0x20_0000_0000_0000
    }

    /// The event log is in step with the engine: every lineage's records
    /// chain, and an active lineage's clock equals the time of its last
    /// record.
    pub open spec fn spec_log_synced(&self, log: Seq<PackedEvent>) -> bool {
        &&& forall|r: GlobalLineageReference|
            spec_is_event_chain(#[trigger] spec_events_of(log, r))
        &&& forall|s: int|
            0 <= s < self.lineage_store.lineages@.len() && self.lineage_store.lineages@[s]
                is Some ==> {
                let l = (#[trigger] self.lineage_store.lineages@[s])->Some_0;
                let evs = spec_events_of(log, l.global_reference);
                evs.len() > 0 ==> evs.last().spec_event_time() == l.last_event_time@
            }
    }

    /// Whether both the active-lineage count and the immigration queue
    /// are exhausted.
    pub fn is_done(&self) -> (r: bool)
        ensures
            r == (self.lineage_store.spec_active_count() == 0 && self.immigration_entry@.len()
                == 0),
    {
        self.lineage_store.number_active_lineages() == 0 && self.immigration_entry.len() == 0
    }

    /// The local work left plus the migration balance, wrapping: the
    /// balance is decremented per emigration and incremented per
    /// immigration, so the partition-wide sum of this measure is exact.
    pub fn get_balanced_remaining_work(&self) -> (r: u64)
        ensures
            r as int == (self.lineage_store.spec_active_count() + self.migration_balance as int) % (
            0x1_0000_0000_0000_0000),
    {
        proof {
            crate::store::lemma_count_some_bounds(self.lineage_store.lineages@);
        }
        let local_remaining = self.lineage_store.number_active_lineages() as u64;
        local_remaining.wrapping_add(self.migration_balance)
    }
}

/// Extending a log by one record extends exactly the record's own
/// lineage sequence.
pub proof fn lemma_events_of_push(log: Seq<PackedEvent>, e: PackedEvent, r: GlobalLineageReference)
    ensures
        spec_events_of(log.push(e), r) == (if e.spec_reference() == r {
            spec_events_of(log, r).push(e)
        } else {
            spec_events_of(log, r)
        }),
{
    reveal(Seq::filter);
    assert(log.push(e).drop_last() =~= log);
}

/// Appending a record adjusts the terminal count by whether it is
/// terminal.
pub proof fn lemma_count_terminal_push(log: Seq<PackedEvent>, e: PackedEvent)
    ensures
        spec_count_terminal(log.push(e)) == spec_count_terminal(log) + (
        if e.spec_is_terminal() {
            1int
        } else {
            0int
        }),
{
    assert(log.push(e).drop_last() =~= log);
}

/// A single-exponent scheduler can always take one more weight of that
/// same exponent: its total is bounded by the number of events it holds.
#[verifier::spinoff_prover]
proof fn lemma_can_add_uniform(
    sampler: &DynamicAliasMethodStackSampler<u64>,
    bits: u64,
    bound: int,
)
    requires
        sampler.well_formed(),
        forall|i: int|
            0 <= i < sampler.exponents@.len() ==> #[trigger] sampler.exponents@[i] as int
                == spec_decomposed_exponent(bits),
        sampler.spec_events().len() == bound,
        bound < 0x1_0000_0000_0000_0000,
    ensures
        sampler.spec_can_add(bits),
{
    broadcast use vstd::multiset::group_multiset_axioms;
    broadcast use vstd::seq_lib::group_to_multiset_ensures;

    vstd::arithmetic::power2::lemma2_to64();
    assert(bits & 0x000f_ffff_ffff_ffffu64 <= 0x000f_ffff_ffff_ffffu64) by (bit_vector);
    if sampler.exponents@.len() == 0 {
    } else {
        assert(sampler.exponents@.len() == 1) by {
            if sampler.exponents@.len() >= 2 {
                assert(sampler.exponents@[0] > sampler.exponents@[1]);
            }
        }
        let g0 = sampler.groups@[0];
        assert(sampler.total_weight as int == g0.total_weight + crate::alias_method::suffix_total(
            sampler.exponents@,
            sampler.groups@,
            sampler.min_exponent as int,
            1,
        ) * 1) by {
            vstd::arithmetic::power2::lemma2_to64();
            vstd::arithmetic::mul::lemma_mul_basics(g0.total_weight as int);
        }
        assert(sampler.spec_events() =~= crate::alias_method::groups_event_multiset(
            sampler.groups@.drop_last(),
        ).add(g0.events@.to_multiset())) by {
            assert(sampler.groups@.last() == g0);
        }
        assert(sampler.groups@.drop_last() =~= Seq::<
            crate::alias_method::RejectionSamplingGroup<u64>,
        >::empty());
        assert(g0.events@.to_multiset().len() == g0.events@.len());
        lemma_sum_of_weights_bounds(g0.weights@);
        vstd::arithmetic::mul::lemma_mul_inequality(
            g0.weights@.len() as int,
            0x1_0000_0000_0000_0000,
            (MANTISSA_LIMIT - 1) as int,
        );
        assert(g0.total_weight <= 0x1_0000_0000_0000_0000 * ((MANTISSA_LIMIT - 1) as int));
        assert(spec_decomposed_exponent(bits) == sampler.min_exponent as int);
        assert(vstd::arithmetic::power2::pow2(0) == 1) by {
            vstd::arithmetic::power2::lemma2_to64();
        }
        assert(crate::alias_method::spec_decomposed_mantissa(bits) * vstd::arithmetic::power2::pow2(
            ((spec_decomposed_exponent(bits) - sampler.min_exponent) as nat),
        ) == crate::alias_method::spec_decomposed_mantissa(bits) * 1);
        vstd::arithmetic::mul::lemma_mul_basics(crate::alias_method::spec_decomposed_mantissa(bits));
    }
}

impl<M: MathsCore, G: RngCore> Simulation<M, G> {
    /// The partition that owns `cell`: cells are split into contiguous
    /// rank bands of the row-major order.
    fn map_cell_to_rank(&self, cell: u64) -> (r: u32)
        requires
            self.spec_invariant(),
            cell < self.habitat.habitat@.len(),
        ensures
            r < self.partition_size,
            self.partition_size == 1 ==> r == 0,
    {
        let area = self.habitat.habitat.len() as u64;
        proof {
            crate::rng::lemma_u64_product_fits_u128(cell as u128, self.partition_size as u128);
        }
        let wide: u128 = (cell as u128) * (self.partition_size as u128);
        proof {
            vstd::arithmetic::mul::lemma_mul_strict_inequality(
                cell as int,
                area as int,
                self.partition_size as int,
            );
            vstd::arithmetic::mul::lemma_mul_is_commutative(cell as int, self.partition_size as int);
            vstd::arithmetic::mul::lemma_mul_is_commutative(area as int, self.partition_size as int);
            vstd::arithmetic::div_mod::lemma_multiply_divide_lt(
                wide as int,
                area as int,
                self.partition_size as int,
            );
            vstd::arithmetic::div_mod::lemma_div_pos_is_pos(wide as int, area as int);
        }
        (wide / (area as u128)) as u32
    }

    /// Commits one local event at `event_time`: the scheduler picks the
    /// acting lineage; it then either speciates, emigrates, coalesces,
    /// or moves to its dispersal target. Exactly one log record or one
    /// emigrant is produced, and lineages are conserved.
    fn local_step(
        &mut self,
        event_time: PositiveF64,
        log: &mut Vec<PackedEvent>,
        emigrants: &mut Vec<MigratingLineage>,
    )
        requires
            old(self).spec_invariant(),
            old(self).lineage_store.spec_active_count() >= 1,
            is_finite_bits(event_time@),
            event_time@ > old(self).global_time@,
        ensures
            final(self).spec_invariant(),
            final(self).global_time@ == event_time@,
            final(self).habitat == old(self).habitat,
            final(self).turnover_rate == old(self).turnover_rate,
            final(self).speciation_probability == old(self).speciation_probability,
            final(self).partition_rank == old(self).partition_rank,
            final(self).partition_size == old(self).partition_size,
            final(self).immigration_entry@ == old(self).immigration_entry@,
            final(log)@.len() + final(emigrants)@.len() == old(log)@.len() + old(emigrants)@.len() + 1,
            final(log)@.len() >= old(log)@.len(),
            final(emigrants)@.len() >= old(emigrants)@.len(),
            final(log)@.subrange(0, old(log)@.len() as int) == old(log)@,
            final(emigrants)@.subrange(0, old(emigrants)@.len() as int) == old(emigrants)@,
            final(self).lineage_store.spec_active_count() + (spec_count_terminal(final(log)@)
                - spec_count_terminal(old(log)@)) + (final(emigrants)@.len() - old(emigrants)@.len()) == old(self).lineage_store.spec_active_count(),
            forall|j: int|
                old(log)@.len() <= j < final(log)@.len() ==> (
                #[trigger] final(log)@[j]).spec_event_time() == event_time@,
            old(self).spec_log_synced(old(log)@) ==> final(self).spec_log_synced(final(log)@),
            old(self).partition_size == 1 ==> final(emigrants)@ == old(emigrants)@,
            final(self).migration_balance as int == (old(self).migration_balance as int - (final(emigrants)@.len() - old(emigrants)@.len())) % 0x1_0000_0000_0000_0000,
            old(self).speciation_probability.speciation_probability@ == ONE_BITS ==> (final(log)@.len() == old(log)@.len() + 1 && final(log)@.last() is Speciation && final(emigrants)@ == old(emigrants)@),
            old(self).speciation_probability.speciation_probability@ == 0u64 ==> forall|j: int|
                old(log)@.len() <= j < final(log)@.len() ==> !((#[trigger] final(log)@[j])
                    is Speciation),
    {
        broadcast use vstd::multiset::group_multiset_axioms;

        let ghost old_log = log@;
        let ghost old_emigrants = emigrants@;
        proof {
            vstd::arithmetic::div_mod::lemma_small_mod(
                old(self).migration_balance as nat,
                0x1_0000_0000_0000_0000nat,
            );
        }
        // the scheduler holds one event per active lineage, so it is not empty
        proof {
            if self.active_lineage_sampler.groups@.len() == 0 {
                assert(self.active_lineage_sampler.spec_events().len() == 0);
            } else {
                lemma_stack_total_positive(&self.active_lineage_sampler);
            }
        }
        let popped = self.active_lineage_sampler.sample_pop(&mut self.rng);
        let slot64: u64;
        match popped {
            Some(s) => {
                slot64 = s;
            },
            None => {
                proof {
                    assert(false);
                }
                slot64 = 0;
            },
        }
        // fixing the slot count in scope bounds the slot cast below
        let slot_count = self.lineage_store.lineages.len();
        proof {
            assert(old(self).active_lineage_sampler.spec_events().count(slot64) >= 1);
            assert(slot64 < self.lineage_store.lineages@.len()
                && self.lineage_store.lineages@[slot64 as int] is Some);
        }
        let slot = slot64 as usize;
        let lineage = self.lineage_store.extract_lineage(slot);
        let ghost reference = lineage.global_reference;
        proof {
            // the extracted lineage's reference is unique among the remaining actives
            assert forall|s: int|
                0 <= s < self.lineage_store.lineages@.len() && self.lineage_store.lineages@[s]
                    is Some implies (#[trigger] self.lineage_store.lineages@[s])->Some_0.global_reference
                != reference by {
                assert(old(self).lineage_store.lineages@[s] is Some);
            }
            use_type_invariant(event_time);
            use_type_invariant(lineage.last_event_time);
        }
        // speciation?
        let u = sample_u53(&mut self.rng);
        if sample_event_below(u, self.speciation_probability.speciation_probability) {
            proof {
                // a zero speciation probability admits no draw below it
                if self.speciation_probability.speciation_probability@ == 0u64 {
                    lemma_u53_not_below_zero(u);
                }
            }
            let ev = PackedEvent::Speciation(
                SpeciationEvent {
                    global_lineage_reference: lineage.global_reference,
                    prior_time: lineage.last_event_time,
                    event_time,
                    origin: lineage.indexed_location,
                },
            );
            log.push(ev);
            self.global_time = event_time.into_non_negative();
            proof {
                lemma_count_terminal_push(old_log, ev);
                self.lemma_commit_event(old(self), old_log, ev, lineage);
                assert(log@.subrange(0, old_log.len() as int) =~= old_log);
                assert(emigrants@.subrange(0, old_emigrants.len() as int) =~= old_emigrants);
            }
            return ;
        }
        proof {
            // every draw lies below the probability one, so a speciation
            // probability of one never reaches the dispersal branches
            if self.speciation_probability.speciation_probability@ == ONE_BITS {
                lemma_u53_below_one(u);
            }
        }
        // dispersal target: drawn from the origin's cumulative row
        let origin_location = lineage.indexed_location.location;
        proof {
            assert(old(self).lineage_store.lineages@[slot64 as int] == Some(lineage));
        }
        let target_cell = self.dispersal_sampler.sample_dispersal_from_location(
            &origin_location,
            &self.habitat,
            &mut self.rng,
        );
        proof {
            crate::habitat::lemma_cell_index_in_range(target_cell, self.habitat.width,
                self.habitat.height);
            crate::habitat::lemma_u32_product_fits_u64(target_cell.y as u64,
                self.habitat.width as u64);
        }
        let cell64 = (target_cell.y as u64) * (self.habitat.width as u64) + (target_cell.x as u64);
        let coalescence_rng_sample = CoalescenceRngSample::new(&mut self.rng);
        if self.map_cell_to_rank(cell64) != self.partition_rank {
            // the target belongs to another partition: the lineage emigrates
            emigrants.push(
                MigratingLineage {
                    global_reference: lineage.global_reference,
                    dispersal_origin: lineage.indexed_location,
                    dispersal_target: target_cell,
                    prior_time: lineage.last_event_time,
                    event_time,
                    coalescence_rng_sample,
                    tie_breaker: TieBreaker::PreferImmigrant,
                },
            );
            self.migration_balance = self.migration_balance.wrapping_sub(1);
            self.global_time = event_time.into_non_negative();
            proof {
                assert(log@.subrange(0, old_log.len() as int) =~= old_log);
                assert(emigrants@.subrange(0, old_emigrants.len() as int) =~= old_emigrants);
                if old(self).spec_log_synced(old_log) {
                    assert forall|s: int|
                        0 <= s < self.lineage_store.lineages@.len()
                            && self.lineage_store.lineages@[s] is Some implies {
                        let l = (#[trigger] self.lineage_store.lineages@[s])->Some_0;
                        let evs = spec_events_of(log@, l.global_reference);
                        evs.len() > 0 ==> evs.last().spec_event_time() == l.last_event_time@
                    } by {
                        assert(old(self).lineage_store.lineages@[s] is Some);
                    }
                }
            }
            return ;
        }
        // coalescence at the target slot, resolved by the carried draw
        let (target, interaction) = ConditionalCoalescenceSampler::sample_interaction_at_location(
            target_cell,
            &self.habitat,
            &self.lineage_store,
            coalescence_rng_sample,
        );
        match interaction {
            LineageInteraction::Coalescence(parent) => {
                let ev = PackedEvent::Dispersal(
                    DispersalEvent {
                        global_lineage_reference: lineage.global_reference,
                        prior_time: lineage.last_event_time,
                        event_time,
                        origin: lineage.indexed_location,
                        target,
                        interaction: LineageInteraction::Coalescence(parent),
                    },
                );
                log.push(ev);
                self.global_time = event_time.into_non_negative();
                proof {
                    lemma_count_terminal_push(old_log, ev);
                    self.lemma_commit_event(old(self), old_log, ev, lineage);
                    assert(log@.subrange(0, old_log.len() as int) =~= old_log);
                    assert(emigrants@.subrange(0, old_emigrants.len() as int) =~= old_emigrants);
                }
            },
            _ => {
                proof {
                    // the locally coherent store never answers `Maybe`
                    assert(interaction is NoCoalescence);
                }
                // the lineage moves to the free target slot
                let moved = Lineage {
                    global_reference: lineage.global_reference,
                    indexed_location: target,
                    last_event_time: event_time.into_non_negative(),
                };
                proof {
                    crate::store::lemma_count_some_bounds(self.lineage_store.lineages@);
                    lemma_can_add_uniform(
                        &self.active_lineage_sampler,
                        self.turnover_rate.turnover_rate@,
                        self.active_lineage_sampler.spec_events().len() as int,
                    );
                    use_type_invariant(self.turnover_rate.turnover_rate);
                }
                self.lineage_store.place_lineage(&self.habitat, slot, moved);
                self.active_lineage_sampler.add_push(slot64, self.turnover_rate.turnover_rate);
                let ev = PackedEvent::Dispersal(
                    DispersalEvent {
                        global_lineage_reference: lineage.global_reference,
                        prior_time: lineage.last_event_time,
                        event_time,
                        origin: lineage.indexed_location,
                        target,
                        interaction: LineageInteraction::NoCoalescence,
                    },
                );
                log.push(ev);
                self.global_time = event_time.into_non_negative();
                proof {
                    lemma_count_terminal_push(old_log, ev);
                    self.lemma_commit_event(old(self), old_log, ev, lineage);
                    assert(log@.subrange(0, old_log.len() as int) =~= old_log);
                    assert(emigrants@.subrange(0, old_emigrants.len() as int) =~= old_emigrants);
                }
            },
        }
    }

    /// Builds a simulation over `lineages`, validating each one: a
    /// lineage outside the habitable landscape, beyond its deme's
    /// capacity, or colliding with an already-admitted lineage — by slot
    /// or by reference — is reported as exceptional instead of admitted.
    /// All problems of a resume surface at once, never only the first.
    pub fn resume(
        habitat: InMemoryHabitat,
        dispersal_sampler: InMemoryCumulativeDispersalSampler,
        turnover_rate: UniformTurnoverRate,
        speciation_probability: UniformSpeciationProbability,
        rng: G,
        lineages: Vec<Lineage>,
        resume_time: NonNegativeF64,
        partition_rank: u32,
        partition_size: u32,
    ) -> (r: (Self, Vec<crate::fixup::ExceptionalLineage>))
        requires
            habitat.well_formed(),
            dispersal_sampler.well_formed(&habitat),
            is_finite_bits(turnover_rate.turnover_rate@),
            is_finite_bits(resume_time@),
            lineages@.len() < 0x20_0000_0000_0000,
            forall|i: int|
                0 <= i < lineages@.len() ==> is_finite_bits(
                    (#[trigger] lineages@[i]).last_event_time@,
                ),
            partition_size >= 1,
            partition_rank < partition_size,
        ensures
            r.0.spec_invariant(),
            r.0.immigration_entry@.len() == 0,
            r.0.lineage_store.spec_active_count() + r.1@.len() == lineages@.len(),
            r.0.habitat == habitat,
            r.0.turnover_rate == turnover_rate,
            r.0.speciation_probability == speciation_probability,
            r.0.partition_rank == partition_rank,
            r.0.partition_size == partition_size,
            r.0.spec_log_synced(Seq::<PackedEvent>::empty()),
            forall|k: int|
                0 <= k < r.1@.len() ==> spec_exceptional_entry_sound(
                    #[trigger] r.1@[k],
                    lineages@,
                    &habitat,
                    &r.0.lineage_store,
                ),
            forall|s: int|
                0 <= s < r.0.lineage_store.lineages@.len() && (
                #[trigger] r.0.lineage_store.lineages@[s]) is Some ==> lineages@.contains(
                    r.0.lineage_store.lineages@[s]->Some_0,
                ),
            r.0.global_time@ >= resume_time@,
            r.0.global_time@ == resume_time@ || exists|s: int|
                0 <= s < r.0.lineage_store.lineages@.len() && (
                #[trigger] r.0.lineage_store.lineages@[s]) is Some
                    && r.0.lineage_store.lineages@[s]->Some_0.last_event_time@
                    == r.0.global_time@,
    {
        proof {
            use_type_invariant(resume_time);
        }
        let mut sim = Simulation {
            maths: core::marker::PhantomData,
            habitat,
            dispersal_sampler,
            turnover_rate,
            speciation_probability,
            rng,
            lineage_store: ClassicalLineageStore::new(),
            active_lineage_sampler: DynamicAliasMethodStackSampler::new(),
            immigration_entry: Vec::new(),
            partition_rank,
            partition_size,
            migration_balance: 0,
            global_time: resume_time,
        };
        let mut exceptional: Vec<crate::fixup::ExceptionalLineage> = Vec::new();
        let mut i: usize = 0;
        while i < lineages.len()
            invariant
                sim.spec_invariant(),
                sim.immigration_entry@.len() == 0,
                sim.habitat == habitat,
                sim.turnover_rate == turnover_rate,
                sim.speciation_probability == speciation_probability,
                sim.partition_rank == partition_rank,
                sim.partition_size == partition_size,
                i <= lineages@.len(),
                lineages@.len() < 0x20_0000_0000_0000,
                sim.lineage_store.lineages@.len() <= i,
                sim.lineage_store.spec_active_count() + exceptional@.len() == i,
                forall|j: int|
                    0 <= j < lineages@.len() ==> is_finite_bits(
                        (#[trigger] lineages@[j]).last_event_time@,
                    ),
                forall|k: int|
                    0 <= k < exceptional@.len() ==> spec_exceptional_entry_sound(
                        #[trigger] exceptional@[k],
                        lineages@,
                        &habitat,
                        &sim.lineage_store,
                    ),
                forall|s: int|
                    0 <= s < sim.lineage_store.lineages@.len() && (
                    #[trigger] sim.lineage_store.lineages@[s]) is Some ==> lineages@.contains(
                        sim.lineage_store.lineages@[s]->Some_0,
                    ),
                sim.global_time@ >= resume_time@,
                sim.global_time@ == resume_time@ || exists|s: int|
                    0 <= s < sim.lineage_store.lineages@.len() && (
                    #[trigger] sim.lineage_store.lineages@[s]) is Some
                        && sim.lineage_store.lineages@[s]->Some_0.last_event_time@
                        == sim.global_time@,
            decreases lineages@.len() - i,
        {
            let lineage = lineages[i];
            let ghost store_pre = sim.lineage_store.lineages@;
            proof {
                assert(lineages@.contains(lineage)) by {
                    assert(lineages@[i as int] == lineage);
                }
            }
            if !sim.habitat.is_location_habitable(&lineage.indexed_location.location) {
                exceptional.push(crate::fixup::ExceptionalLineage::OutOfHabitat(lineage));
            } else if lineage.indexed_location.index >= sim.habitat.get_habitat_at_location(
                &lineage.indexed_location.location,
            ) {
                exceptional.push(crate::fixup::ExceptionalLineage::OutOfDeme(lineage));
            } else {
                match sim.lineage_store.find_lineage_at(&lineage.indexed_location) {
                    Some(other_slot) => {
                        let parent = match &sim.lineage_store.lineages[other_slot] {
                            Some(l) => l.global_reference,
                            None => GlobalLineageReference { id: 0 },
                        };
                        exceptional.push(
                            crate::fixup::ExceptionalLineage::Coalescence {
                                child: lineage,
                                parent,
                            },
                        );
                    },
                    None => {
                        match sim.lineage_store.find_reference(&lineage.global_reference) {
                            Some(_) => {
                                exceptional.push(
                                    crate::fixup::ExceptionalLineage::Coalescence {
                                        child: lineage,
                                        parent: lineage.global_reference,
                                    },
                                );
                            },
                            None => {
                                proof {
                                    crate::store::lemma_count_some_bounds(
                                        sim.lineage_store.lineages@,
                                    );
                                    lemma_can_add_uniform(
                                        &sim.active_lineage_sampler,
                                        sim.turnover_rate.turnover_rate@,
                                        sim.active_lineage_sampler.spec_events().len() as int,
                                    );
                                    use_type_invariant(sim.turnover_rate.turnover_rate);
                                    use_type_invariant(lineage.last_event_time);
                                }
                                let ghost clock_pre = sim.global_time@;
                                let slot = sim.lineage_store.append_lineage(&sim.habitat, lineage);
                                sim.active_lineage_sampler.add_push(
                                    slot as u64,
                                    sim.turnover_rate.turnover_rate,
                                );
                                if lineage.last_event_time.get() > sim.global_time.get() {
                                    sim.global_time = lineage.last_event_time;
                                }
                                proof {
                                    // admitting a lineage disturbs no witness: old
                                    // slots and their contents are unchanged
                                    assert forall|k: int|
                                        0 <= k < exceptional@.len() implies spec_exceptional_entry_sound(
                                        #[trigger] exceptional@[k],
                                        lineages@,
                                        &habitat,
                                        &sim.lineage_store,
                                    ) by {
                                        match exceptional@[k] {
                                            crate::fixup::ExceptionalLineage::Coalescence {
                                                child,
                                                parent,
                                            } => {
                                                let w = choose|w: int|
                                                    0 <= w < store_pre.len() && (
                                                    #[trigger] store_pre[w]) is Some
                                                        && store_pre[w]->Some_0.global_reference
                                                        == parent && (
                                                    store_pre[w]->Some_0.indexed_location
                                                        == child.indexed_location
                                                        || store_pre[w]->Some_0.global_reference
                                                        == child.global_reference);
                                                assert(sim.lineage_store.lineages@[w]
                                                    == store_pre[w]);
                                            },
                                            _ => {
                                            },
                                        }
                                    }
                                    if sim.global_time@ != clock_pre {
                                        assert(sim.lineage_store.lineages@[slot as int] == Some(
                                            lineage,
                                        ));
                                    } else if clock_pre != resume_time@ {
                                        let w = choose|w: int|
                                            0 <= w < store_pre.len() && (#[trigger] store_pre[w])
                                                is Some
                                                && store_pre[w]->Some_0.last_event_time@
                                                == clock_pre;
                                        assert(sim.lineage_store.lineages@[w] == store_pre[w]);
                                    }
                                }
                            },
                        }
                    },
                }
            }
            i = i + 1;
        }
        proof {
            reveal(Seq::filter);
        }
        (sim, exceptional)
    }

    /// Consumes the first queued immigrant: its carried coalescence draw
    /// — not the local stream — decides whether it collides at its
    /// arrival slot; either way one dispersal record is logged, and on a
    /// free slot the lineage joins the local store and scheduler.
    fn immigration_step(&mut self, log: &mut Vec<PackedEvent>)
        requires
            old(self).spec_invariant(),
            old(self).immigration_entry@.len() >= 1,
        ensures
            final(self).spec_invariant(),
            final(self).immigration_entry@ == old(self).immigration_entry@.drop_first(),
            final(log)@.len() == old(log)@.len() + 1,
            final(log)@.subrange(0, old(log)@.len() as int) == old(log)@,
            final(self).lineage_store.spec_active_count() + (spec_count_terminal(final(log)@)
                - spec_count_terminal(old(log)@)) == old(self).lineage_store.spec_active_count()
                + 1,
            final(self).global_time@ >= old(self).global_time@,
            final(self).migration_balance as int == (old(self).migration_balance as int + 1)
                % 0x1_0000_0000_0000_0000,
            final(log)@.last() is Dispersal,
            final(self).habitat == old(self).habitat,
            final(self).turnover_rate == old(self).turnover_rate,
            final(self).speciation_probability == old(self).speciation_probability,
            final(self).partition_size == old(self).partition_size,
            final(self).partition_rank == old(self).partition_rank,
    {
        broadcast use vstd::multiset::group_multiset_axioms;

        let ghost old_log = log@;
        let migrating = self.immigration_entry.remove(0);
        proof {
            assert(self.immigration_entry@ =~= old(self).immigration_entry@.drop_first());
            assert(migrating == old(self).immigration_entry@[0]);
        }
        // the carried draw — not the local stream — resolves coalescence
        let (target, interaction) = ConditionalCoalescenceSampler::sample_interaction_at_location(
            migrating.dispersal_target,
            &self.habitat,
            &self.lineage_store,
            migrating.coalescence_rng_sample,
        );
        match interaction {
            LineageInteraction::Coalescence(parent) => {
                let ev = PackedEvent::Dispersal(
                    DispersalEvent {
                        global_lineage_reference: migrating.global_reference,
                        prior_time: migrating.prior_time,
                        event_time: migrating.event_time,
                        origin: migrating.dispersal_origin,
                        target,
                        interaction: LineageInteraction::Coalescence(parent),
                    },
                );
                log.push(ev);
                proof {
                    lemma_count_terminal_push(old_log, ev);
                    assert(log@.subrange(0, old_log.len() as int) =~= old_log);
                }
            },
            _ => {
                proof {
                    // the locally coherent store never answers `Maybe`
                    assert(interaction is NoCoalescence);
                }
                let arrived = Lineage {
                    global_reference: migrating.global_reference,
                    indexed_location: target,
                    last_event_time: migrating.event_time.into_non_negative(),
                };
                proof {
                    crate::store::lemma_count_some_bounds(self.lineage_store.lineages@);
                    lemma_can_add_uniform(
                        &self.active_lineage_sampler,
                        self.turnover_rate.turnover_rate@,
                        self.active_lineage_sampler.spec_events().len() as int,
                    );
                    use_type_invariant(self.turnover_rate.turnover_rate);
                    use_type_invariant(migrating.event_time);
                }
                let new_slot = self.lineage_store.append_lineage(&self.habitat, arrived);
                self.active_lineage_sampler.add_push(
                    new_slot as u64,
                    self.turnover_rate.turnover_rate,
                );
                if migrating.event_time.get() > self.global_time.get() {
                    self.global_time = migrating.event_time.into_non_negative();
                }
                let ev = PackedEvent::Dispersal(
                    DispersalEvent {
                        global_lineage_reference: migrating.global_reference,
                        prior_time: migrating.prior_time,
                        event_time: migrating.event_time,
                        origin: migrating.dispersal_origin,
                        target,
                        interaction: LineageInteraction::NoCoalescence,
                    },
                );
                log.push(ev);
                proof {
                    lemma_count_terminal_push(old_log, ev);
                    assert(log@.subrange(0, old_log.len() as int) =~= old_log);
                }
            },
        }
        self.migration_balance = self.migration_balance.wrapping_add(1);
    }

    /// Drives the simulation until no active lineage and no pending
    /// immigration is left, the step budget runs out, the next local
    /// event would reach `pause_before`, or the next event time becomes
    /// infinite. On a pause before a committed local event, the random
    /// stream is rolled back to the state before the speculative peek.
    pub fn simulate_incremental_early_stop(
        &mut self,
        pause_before: Option<NonNegativeF64>,
        step_limit: Option<u64>,
        log: &mut Vec<PackedEvent>,
        emigrants: &mut Vec<MigratingLineage>,
    ) -> (r: (NonNegativeF64, u64, Status))
        requires
            old(self).spec_invariant(),
        ensures
            final(self).spec_invariant(),
            final(log)@.len() >= old(log)@.len(),
            final(log)@.subrange(0, old(log)@.len() as int) == old(log)@,
            final(emigrants)@.len() >= old(emigrants)@.len(),
            final(emigrants)@.subrange(0, old(emigrants)@.len() as int) == old(emigrants)@,
            final(self).lineage_store.spec_active_count() + (spec_count_terminal(final(log)@)
                - spec_count_terminal(old(log)@)) + (final(emigrants)@.len() - old(emigrants)@.len()) == old(self).lineage_store.spec_active_count() + (old(self).immigration_entry@.len() - final(self).immigration_entry@.len()),
            final(self).immigration_entry@.len() <= old(self).immigration_entry@.len(),
            (old(self).immigration_entry@.len() == 0 && old(self).spec_log_synced(old(log)@))
                ==> final(self).spec_log_synced(final(log)@),
            (old(self).immigration_entry@.len() == 0 && old(self).spec_log_synced(old(log)@))
                ==> forall|j: int|
                old(log)@.len() <= j < final(log)@.len() ==> (
                #[trigger] final(log)@[j]).spec_event_time() > old(self).global_time@,
            old(self).partition_size == 1 ==> final(emigrants)@ == old(emigrants)@,
            r.0 == final(self).global_time,
            r.2 is Done ==> (final(self).lineage_store.spec_active_count() == 0 && final(self).immigration_entry@.len() == 0),
            r.1 as int == (final(log)@.len() - old(log)@.len()) + (final(emigrants)@.len() - old(emigrants)@.len()),
            final(self).migration_balance as int == (old(self).migration_balance + (old(self).immigration_entry@.len() - final(self).immigration_entry@.len()) - (final(emigrants)@.len() - old(emigrants)@.len())) % 0x1_0000_0000_0000_0000,
            (old(self).lineage_store.spec_active_count() == 0 && old(self).immigration_entry@.len()
                == 0 && (step_limit is None || step_limit->0 >= 1)) ==> (r.2 is Done && r.1 == 0),
            (r.1 == 0 && r.2 is Paused) ==> (final(self).rng == old(self).rng && final(self).global_time == old(self).global_time && final(self).lineage_store.lineages@ == old(self).lineage_store.lineages@ && final(self).active_lineage_sampler.spec_matches(
                &old(self).active_lineage_sampler,
            ) && final(self).immigration_entry@ == old(self).immigration_entry@ && final(self).migration_balance == old(self).migration_balance && final(log)@ == old(log)@
                && final(emigrants)@ == old(emigrants)@),
            r.2 is Paused ==> ((match step_limit {
                Option::Some(limit) => r.1 == limit,
                Option::None => false,
            }) || pause_before is Some || r.1 == u64::MAX
                || final(self).lineage_store.spec_active_count() > 0 || final(self).immigration_entry@.len() > 0),
            (old(self).speciation_probability.speciation_probability@ == ONE_BITS && old(self).immigration_entry@.len() == 0) ==> forall|j: int|
                old(log)@.len() <= j < final(log)@.len() ==> (#[trigger] final(log)@[j])
                    is Speciation,
            old(self).speciation_probability.speciation_probability@ == 0u64 ==> forall|j: int|
                old(log)@.len() <= j < final(log)@.len() ==> !((#[trigger] final(log)@[j])
                    is Speciation),
            final(self).speciation_probability == old(self).speciation_probability,
    {
        let ghost chain_mode = old(self).immigration_entry@.len() == 0 && old(self).spec_log_synced(old(log)@);
        proof {
            vstd::arithmetic::div_mod::lemma_small_mod(
                old(self).migration_balance as nat,
                0x1_0000_0000_0000_0000nat,
            );
        }
        let mut steps: u64 = 0;
        loop
            invariant
                self.spec_invariant(),
                log@.len() >= old(log)@.len(),
                log@.subrange(0, old(log)@.len() as int) == old(log)@,
                emigrants@.len() >= old(emigrants)@.len(),
                emigrants@.subrange(0, old(emigrants)@.len() as int) == old(emigrants)@,
                self.immigration_entry@.len() <= old(self).immigration_entry@.len(),
                self.lineage_store.spec_active_count() + (spec_count_terminal(log@)
                    - spec_count_terminal(old(log)@)) + (emigrants@.len() - old(emigrants)@.len()) == old(self).lineage_store.spec_active_count() + (old(self).immigration_entry@.len() - self.immigration_entry@.len()),
                chain_mode == (old(self).immigration_entry@.len() == 0 && old(self).spec_log_synced(old(log)@)),
                chain_mode ==> (self.immigration_entry@.len() == 0 && self.spec_log_synced(log@)),
                self.global_time@ >= old(self).global_time@,
                chain_mode ==> forall|j: int|
                    old(log)@.len() <= j < log@.len() ==> (#[trigger] log@[j]).spec_event_time()
                        > old(self).global_time@,
                self.partition_size == old(self).partition_size,
                old(self).partition_size == 1 ==> emigrants@ == old(emigrants)@,
                steps as int == (log@.len() - old(log)@.len()) + (emigrants@.len() - old(emigrants)@.len()),
                self.migration_balance as int == (old(self).migration_balance + (old(self).immigration_entry@.len() - self.immigration_entry@.len()) - (emigrants@.len()
                    - old(emigrants)@.len())) % 0x1_0000_0000_0000_0000,
                match step_limit {
                    Option::Some(limit) => steps <= limit,
                    Option::None => true,
                },
                (old(self).lineage_store.spec_active_count() == 0 && old(self).immigration_entry@.len() == 0) ==> steps == 0,
                steps == 0 ==> (self.rng == old(self).rng && self.global_time == old(self).global_time && self.lineage_store.lineages@ == old(self).lineage_store.lineages@
                    && self.active_lineage_sampler.spec_matches(&old(self).active_lineage_sampler)
                    && self.immigration_entry@ == old(self).immigration_entry@
                    && self.migration_balance == old(self).migration_balance && log@ == old(log)@
                    && emigrants@ == old(emigrants)@),
                self.speciation_probability == old(self).speciation_probability,
                (old(self).speciation_probability.speciation_probability@ == ONE_BITS && old(self).immigration_entry@.len() == 0) ==> forall|j: int|
                    old(log)@.len() <= j < log@.len() ==> (#[trigger] log@[j]) is Speciation,
                old(self).speciation_probability.speciation_probability@ == 0u64 ==> forall|j: int|
                    old(log)@.len() <= j < log@.len() ==> !((#[trigger] log@[j]) is Speciation),
            decreases u64::MAX - steps,
        {
            match step_limit {
                Some(limit) => {
                    if steps >= limit {
                        return (self.global_time, steps, Status::Paused);
                    }
                },
                None => {
                },
            }
            if steps == u64::MAX {
                return (self.global_time, steps, Status::Paused);
            }
            let n = self.lineage_store.number_active_lineages();
            let imm_len = self.immigration_entry.len();
            if n == 0 && imm_len == 0 {
                return (self.global_time, steps, Status::Done);
            }
            proof {
                crate::store::lemma_count_some_bounds(self.lineage_store.lineages@);
            }
            // speculative peek of the next local event time
            let rng_backup = self.rng.backup();
            let mut t_loc: Option<PositiveF64> = None;
            if n > 0 {
                proof {
                    use_type_invariant(self.turnover_rate.turnover_rate);
                    use_type_invariant(self.global_time);
                }
                let rate_n = compose_f64_from_u64(n as u64);
                let rate = M::mul_nonneg(rate_n, self.turnover_rate.turnover_rate.get());
                let u = sample_u53(&mut self.rng);
                let unit = crate::float_bits::compose_unit_from_u53(u);
                let neg_log = M::neg_ln_unit(unit);
                proof {
                    assert(0u64 >> 63u64 == 0u64 && (0u64 >> 52u64) & 0x7ffu64 == 0u64)
                        by (bit_vector);
                    let rr = rate;
                    assert(rr >> 63u64 == 0u64 && rr < 0x7ff0_0000_0000_0000u64 ==> (rr >> 52u64)
                        & 0x7ffu64 != 0x7ffu64) by (bit_vector);
                }
                let delta: u64 = if rate >= INFINITY_BITS {
                    // an infinite total rate fires immediately
                    0
                } else {
                    M::div_nonneg(neg_log, rate)
                };
                let t_bits = M::add_nonneg(self.global_time.get(), delta);
                let t_after = NonNegativeF64::new_unchecked(t_bits);
                t_loc = Some(PositiveF64::max_after(self.global_time, t_after));
            }
            // pause once the next local event would cross the deadline
            match (pause_before, t_loc) {
                (Some(deadline), Some(t)) => {
                    if t.get() >= deadline.get() {
                        self.rng = rng_backup;
                        return (self.global_time, steps, Status::Paused);
                    }
                },
                _ => {
                },
            }
            // an infinite next event time means nothing more ever happens
            match t_loc {
                Some(t) => {
                    if t.get() >= INFINITY_BITS {
                        self.rng = rng_backup;
                        return (self.global_time, steps, Status::Paused);
                    }
                },
                None => {
                },
            }
            // arbitrate the peeked immigration against the local candidate
            let immigration_peek: Option<(PositiveF64, TieBreaker)> = if imm_len > 0 {
                let first = self.immigration_entry[0];
                Some((first.event_time, first.tie_breaker))
            } else {
                None
            };
            let use_immigration = decide_immigration_wins(immigration_peek, t_loc);
            if use_immigration {
                let ghost log_mid = log@;
                self.immigration_step(log);
                proof {
                    lemma_prefix_transitive(old(log)@, log_mid, log@);
                    if old(self).speciation_probability.speciation_probability@ == 0u64 {
                        assert forall|j: int|
                            old(log)@.len() <= j < log@.len() implies !((#[trigger] log@[j])
                            is Speciation) by {
                            if j < log_mid.len() {
                                assert(log@.subrange(0, log_mid.len() as int)[j] == log@[j]);
                            } else {
                                assert(log@[j] == log@.last());
                            }
                        }
                    }
                }
            } else {
                let t = match t_loc {
                    Some(t) => t,
                    None => {
                        proof {
                            assert(false);
                        }
                        PositiveF64::one()
                    },
                };
                proof {
                    use_type_invariant(t);
                    crate::float_bits::lemma_nonnegative_bits_split(t@);
                }
                let ghost log_mid = log@;
                let ghost emigrants_mid = emigrants@;
                let ghost clock_mid = self.global_time@;
                self.local_step(t, log, emigrants);
                proof {
                    lemma_prefix_transitive(old(log)@, log_mid, log@);
                    lemma_prefix_transitive(old(emigrants)@, emigrants_mid, emigrants@);
                    if chain_mode {
                        assert forall|j: int|
                            old(log)@.len() <= j < log@.len() implies (
                        #[trigger] log@[j]).spec_event_time() > old(self).global_time@ by {
                            if j < log_mid.len() {
                                assert(log@.subrange(0, log_mid.len() as int)[j] == log@[j]);
                            } else {
                                assert(log@[j].spec_event_time() == t@);
                            }
                        }
                    }
                    if old(self).speciation_probability.speciation_probability@ == ONE_BITS && old(self).immigration_entry@.len() == 0 {
                        assert forall|j: int|
                            old(log)@.len() <= j < log@.len() implies (#[trigger] log@[j])
                            is Speciation by {
                            if j < log_mid.len() {
                                assert(log@.subrange(0, log_mid.len() as int)[j] == log@[j]);
                            } else {
                                assert(log@[j] == log@.last());
                            }
                        }
                    }
                    if old(self).speciation_probability.speciation_probability@ == 0u64 {
                        assert forall|j: int|
                            old(log)@.len() <= j < log@.len() implies !((#[trigger] log@[j])
                            is Speciation) by {
                            if j < log_mid.len() {
                                assert(log@.subrange(0, log_mid.len() as int)[j] == log@[j]);
                            }
                        }
                    }
                }
            }
            steps = steps + 1;
        }
    }

    /// Drives a single-partition simulation to completion: every
    /// lineage eventually speciates or coalesces, and the log accounts
    /// for each one.
    pub fn simulate(&mut self, log: &mut Vec<PackedEvent>) -> (r: (NonNegativeF64, u64, Status))
        requires
            old(self).spec_invariant(),
            old(self).partition_size == 1,
            old(self).immigration_entry@.len() == 0,
            old(self).spec_log_synced(old(log)@),
        ensures
            final(self).spec_invariant(),
            final(log)@.len() >= old(log)@.len(),
            final(log)@.subrange(0, old(log)@.len() as int) == old(log)@,
            final(self).lineage_store.spec_active_count() + (spec_count_terminal(final(log)@)
                - spec_count_terminal(old(log)@)) == old(self).lineage_store.spec_active_count(),
            final(self).spec_log_synced(final(log)@),
            forall|j: int|
                old(log)@.len() <= j < final(log)@.len() ==> (
                #[trigger] final(log)@[j]).spec_event_time() > old(self).global_time@,
            r.0 == final(self).global_time,
            r.2 is Done ==> final(self).lineage_store.spec_active_count() == 0,
            r.1 as int == final(log)@.len() - old(log)@.len(),
            old(self).lineage_store.spec_active_count() == 0 ==> (r.2 is Done && r.1 == 0),
            final(self).migration_balance == old(self).migration_balance,
            old(self).speciation_probability.speciation_probability@ == ONE_BITS ==> forall|j: int|
                old(log)@.len() <= j < final(log)@.len() ==> (#[trigger] final(log)@[j])
                    is Speciation,
            old(self).speciation_probability.speciation_probability@ == 0u64 ==> forall|j: int|
                old(log)@.len() <= j < final(log)@.len() ==> !((#[trigger] final(log)@[j])
                    is Speciation),
    {
        let mut emigrants: Vec<MigratingLineage> = Vec::new();
        let r = self.simulate_incremental_early_stop(
            Option::None,
            Option::None,
            log,
            &mut emigrants,
        );
        proof {
            assert(emigrants@.len() == 0);
        }
        r
    }

    /// After a commit, the pushed record chains onto its lineage's
    /// history, and no other lineage's history moves.
    proof fn lemma_commit_event(
        &self,
        pre: &Self,
        old_log: Seq<PackedEvent>,
        ev: PackedEvent,
        lineage: Lineage,
    )
        requires
            ev.spec_reference() == lineage.global_reference,
            ev.spec_prior_time() == lineage.last_event_time@,
            ev.spec_event_time() > pre.global_time@,
            lineage.last_event_time@ <= pre.global_time@,
            exists|s: int|
                0 <= s < pre.lineage_store.lineages@.len() && pre.lineage_store.lineages@[s]
                    == Some(lineage),
            self.lineage_store.lineages@.len() == pre.lineage_store.lineages@.len(),
            forall|s: int|
                0 <= s < self.lineage_store.lineages@.len() && self.lineage_store.lineages@[s]
                    is Some ==> (#[trigger] self.lineage_store.lineages@[s]
                    == pre.lineage_store.lineages@[s] || {
                    let l = self.lineage_store.lineages@[s]->Some_0;
                    l.global_reference == lineage.global_reference && l.last_event_time@
                        == ev.spec_event_time()
                }),
            forall|s: int|
                0 <= s < self.lineage_store.lineages@.len() && self.lineage_store.lineages@[s]
                    is Some ==> {
                    let l = (#[trigger] self.lineage_store.lineages@[s])->Some_0;
                    l.global_reference != lineage.global_reference || l.last_event_time@
                        == ev.spec_event_time()
                },
        ensures
            pre.spec_log_synced(old_log) ==> self.spec_log_synced(old_log.push(ev)),
    {
        if pre.spec_log_synced(old_log) {
            let log2 = old_log.push(ev);
            let reference = lineage.global_reference;
            assert forall|r: GlobalLineageReference| spec_is_event_chain(
                #[trigger] spec_events_of(log2, r),
            ) by {
                lemma_events_of_push(old_log, ev, r);
                if ev.spec_reference() == r {
                    let evs = spec_events_of(old_log, r);
                    let evs2 = evs.push(ev);
                    assert forall|i: int|
                        0 < i < evs2.len() implies (#[trigger] evs2[i]).spec_prior_time() == evs2[
                        i - 1].spec_event_time() && evs2[i - 1].spec_event_time() < evs2[
                        i].spec_event_time() by {
                        if i < evs.len() {
                            assert(evs2[i] == evs[i] && evs2[i - 1] == evs[i - 1]);
                        } else {
                            assert(evs2[i] == ev && evs2[i - 1] == evs.last());
                        }
                    }
                }
            }
            assert forall|s: int|
                0 <= s < self.lineage_store.lineages@.len() && self.lineage_store.lineages@[s]
                    is Some implies {
                let l = (#[trigger] self.lineage_store.lineages@[s])->Some_0;
                let evs = spec_events_of(log2, l.global_reference);
                evs.len() > 0 ==> evs.last().spec_event_time() == l.last_event_time@
            } by {
                let l = self.lineage_store.lineages@[s]->Some_0;
                lemma_events_of_push(old_log, ev, l.global_reference);
            }
        }
    }
}

} // verus!
