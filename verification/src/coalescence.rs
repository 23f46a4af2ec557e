//! The coalescence rule of the locally coherent store.
//!
//! A dispersal arriving at a cell draws one slot index uniformly below
//! the cell's capacity — from the carried coalescence draw, never from
//! the local stream, so a migrating lineage resolves identically on any
//! partition. The arrival coalesces exactly when another lineage holds
//! the drawn slot, and the colliding lineage is named; because the
//! store can always answer the occupancy question, the undecided
//! `Maybe` outcome never arises here.

use vstd::prelude::*;

verus! {

use crate::habitat::InMemoryHabitat;
use crate::landscape::IndexedLocation;
use crate::landscape::Location;
use crate::lineage::CoalescenceRngSample;
use crate::lineage::LineageInteraction;
use crate::store::ClassicalLineageStore;

/// The coalescence sampler over a locally coherent store.
#[derive(Clone, Copy, PartialEq, Eq, Structural, Debug, Default)]
pub struct ConditionalCoalescenceSampler {
}

impl ConditionalCoalescenceSampler {
    /// Resolves a dispersal into `location`: the drawn slot lies below
    /// the cell's capacity, the result is `Coalescence(parent)` exactly
    /// when the lineage `parent` holds that slot, `NoCoalescence`
    /// exactly when no lineage does, and never `Maybe`.
    pub fn sample_interaction_at_location(
        location: Location,
        habitat: &InMemoryHabitat,
        lineage_store: &ClassicalLineageStore,
        coalescence_rng_sample: CoalescenceRngSample,
    ) -> (r: (IndexedLocation, LineageInteraction))
        requires
            habitat.well_formed(),
            habitat.spec_contains(location),
            habitat.spec_habitat_at(location) > 0,
            coalescence_rng_sample.well_formed(),
        ensures
            r.0.location == location,
            r.0.index < habitat.spec_habitat_at(location),
            !(r.1 is Maybe),
            match r.1 {
                LineageInteraction::Coalescence(parent) => exists|s: int|
                    0 <= s < lineage_store.lineages@.len() && (
                    #[trigger] lineage_store.lineages@[s]) is Some
                        && lineage_store.lineages@[s]->Some_0.indexed_location == r.0
                        && lineage_store.lineages@[s]->Some_0.global_reference == parent,
                LineageInteraction::NoCoalescence => forall|s: int|
                    0 <= s < lineage_store.lineages@.len() && (
                    #[trigger] lineage_store.lineages@[s]) is Some
                        ==> lineage_store.lineages@[s]->Some_0.indexed_location != r.0,
                LineageInteraction::Maybe => false,
            },
    {
        let capacity = habitat.get_habitat_at_location(&location);
        let index = coalescence_rng_sample.sample_coalescence_index(capacity);
        let target = IndexedLocation { location, index };
        match lineage_store.find_lineage_at(&target) {
            Some(slot) => {
                let parent = match &lineage_store.lineages[slot] {
                    Some(lineage) => lineage.global_reference,
                    None => {
                        proof {
                            assert(false);
                        }
                        crate::lineage::GlobalLineageReference { id: 0 }
                    },
                };
                (target, LineageInteraction::Coalescence(parent))
            },
            None => (target, LineageInteraction::NoCoalescence),
        }
    }
}

} // verus!
