//! A verified core of a backwards-time spatial coalescence simulator.
//!
//! Lineages of sampled individuals are traced backwards through a gridded
//! landscape until each one either speciates or coalesces with another.
//! The crate provides the bounded-value types the engine relies on, the
//! dynamic alias-method sampler that schedules Gillespie events, the
//! landscape and lineage bookkeeping, and the event loop itself.
//!
//! All floating-point quantities are represented by their IEEE-754 double
//! bit patterns, over which the simulator's invariants (positivity, total
//! order, strict monotonicity of event times) are stated and proved.
//! Transcendental arithmetic is delegated to a [`MathsCore`](crate::MathsCore)
//! implementation supplied by the embedding application.

mod alias_method;
mod bond;
mod coalescence;
mod cogs;
mod dispersal;
mod float_bits;
mod event;
mod fingerprint;
mod fixup;
mod habitat;
mod landscape;
mod packed_alias;
mod partitioning;
mod scenario;
mod simulation;
mod speciation;
mod store;
mod turnover;
mod lineage;
mod maths;
mod rng;

pub use bond::ClosedUnitF64;
pub use bond::ClosedUnitF64Error;
pub use bond::NonNegativeF64;
pub use bond::NonNegativeF64Error;
pub use bond::OffByOneU64;
pub use bond::OffByOneU64Error;
pub use bond::OpenClosedUnitF64;
pub use bond::OpenClosedUnitF64Error;
pub use bond::PositiveF64;
pub use bond::PositiveF64Error;

pub use float_bits::is_finite_bits;
pub use float_bits::is_infinite_bits;
pub use float_bits::is_nan_bits;
pub use float_bits::is_nonnegative_bits;
pub use float_bits::is_positive_bits;
pub use float_bits::lemma_bits_order_is_value_order;
pub use float_bits::scaled_value;
pub use alias_method::DecomposedWeight;
pub use alias_method::DynamicAliasMethodStackSampler;
pub use alias_method::RejectionSamplingGroup;
pub use alias_method::decompose_weight;
pub use alias_method::groups_event_multiset;
pub use alias_method::groups_events_concat;
pub use alias_method::suffix_total;
pub use alias_method::lemma_total_weight_is_exact_scaled_sum;
pub use alias_method::sum_of_weights;
pub use landscape::IndexedLocation;
pub use landscape::LandscapeExtent;
pub use landscape::Location;
pub use lineage::CoalescenceRngSample;
pub use lineage::GlobalLineageReference;
pub use lineage::Lineage;
pub use lineage::LineageInteraction;
pub use lineage::LineageReference;
pub use lineage::MigratingLineage;
pub use lineage::TieBreaker;
pub use event::DispersalEvent;
pub use event::PackedEvent;
pub use event::SpeciationEvent;
pub use event::spec_count_terminal;
pub use event::spec_events_of;
pub use event::spec_is_event_chain;
pub use fixup::CoalescenceStrategy;
pub use fixup::ExceptionalLineage;
pub use fixup::FixUpPlan;
pub use fixup::OutOfDemeStrategy;
pub use fixup::OutOfHabitatStrategy;
pub use fixup::RestartFixUpStrategy;
pub use fixup::SplitExceptionalLineages;
pub use fixup::apply_fixup_strategy;
pub use fixup::uniform_fixup_dispersal;
pub use cogs::AlgorithmParamters;
pub use cogs::AliasSamplerRange;
pub use cogs::FixedEventTimeSampler;
pub use cogs::GillespieAlgorithm;
pub use cogs::GillespieAlgorithmError;
pub use cogs::ImmigrationEntry;
pub use cogs::InMemoryOriginSampler;
pub use cogs::MonolithicDecomposition;
pub use cogs::NeverEmigrationExit;
pub use cogs::NeverImmigrationEntry;
pub use cogs::Partition;
pub use cogs::TrustedOriginSampler;
pub use cogs::habitat_well_formed_check;
pub use fingerprint::Fingerprint;
pub use fingerprint::is_small;
pub use dispersal::InMemoryCumulativeDispersalSampler;
pub use packed_alias::AliasMethodSamplerAtom;
pub use packed_alias::InMemoryPackedAliasDispersalSampler;
pub use coalescence::ConditionalCoalescenceSampler;
pub use maths::MathsCore;
pub use partitioning::ThreadsLocalPartitionError;
pub use partitioning::ThreadsPartitioningError;
pub use partitioning::WaterLevelReporterStrategy;
pub use partitioning::default_migration_interval;
pub use partitioning::default_panic_interval;
pub use partitioning::default_progress_interval;
pub use scenario::InMemoryDispersalSamplerError;
pub use scenario::ScenarioCogs;
pub use scenario::SpatiallyExplicitUniformTurnoverScenario;
pub use scenario::SpatiallyExplicitUniformTurnoverScenarioError;
pub use speciation::UniformSpeciationProbability;
pub use turnover::InMemoryTurnoverRate;
pub use turnover::InMemoryTurnoverRateError;
pub use turnover::UniformTurnoverRate;
pub use store::ClassicalLineageStore;
pub use store::spec_count_some;
pub use simulation::Simulation;
pub use simulation::decide_immigration_wins;
pub use simulation::spec_exceptional_entry_sound;
pub use simulation::spec_immigration_wins;
pub use simulation::Status;
pub use habitat::InMemoryHabitat;
pub use habitat::UniformlySampleableHabitat;
pub use habitat::lemma_map_indexed_location_injective;
pub use habitat::lemma_total_habitat_is_capacity_sum;
pub use habitat::spec_capacity_sum;
pub use rng::PrimeableRng;
pub use rng::RngCore;
pub use rng::WyHash;
pub use rng::sample_index;
pub use rng::sample_u53;
