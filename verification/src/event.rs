//! The events a simulation emits.

use vstd::prelude::*;

verus! {

use crate::bond::NonNegativeF64;
use crate::bond::PositiveF64;
use crate::landscape::IndexedLocation;
use crate::lineage::GlobalLineageReference;
use crate::lineage::LineageInteraction;

/// A lineage ended as a new species root.
#[derive(Clone, Copy, PartialEq, Eq, Structural, Hash, Debug)]
pub struct SpeciationEvent {
    pub global_lineage_reference: GlobalLineageReference,
    pub prior_time: NonNegativeF64,
    pub event_time: PositiveF64,
    pub origin: IndexedLocation,
}

/// A lineage moved, and either found its target slot empty, collided
/// with the lineage holding it, or — under an independent store — will
/// only learn which on the receiving side.
#[derive(Clone, Copy, PartialEq, Eq, Structural, Hash, Debug)]
pub struct DispersalEvent {
    pub global_lineage_reference: GlobalLineageReference,
    pub prior_time: NonNegativeF64,
    pub event_time: PositiveF64,
    pub origin: IndexedLocation,
    pub target: IndexedLocation,
    pub interaction: LineageInteraction,
}

/// One record of the event log.
#[derive(Clone, Copy, PartialEq, Eq, Structural, Hash, Debug)]
pub enum PackedEvent {
    Speciation(SpeciationEvent),
    Dispersal(DispersalEvent),
}

impl PackedEvent {
    /// The lineage this record is about.
    pub open spec fn spec_reference(&self) -> GlobalLineageReference {
        match self {
            PackedEvent::Speciation(e) => e.global_lineage_reference,
            PackedEvent::Dispersal(e) => e.global_lineage_reference,
        }
    }

    /// The time this record happened at.
    pub open spec fn spec_event_time(&self) -> u64 {
        match self {
            PackedEvent::Speciation(e) => e.event_time@,
            PackedEvent::Dispersal(e) => e.event_time@,
        }
    }

    /// The time of the lineage's previous record.
    pub open spec fn spec_prior_time(&self) -> u64 {
        match self {
            PackedEvent::Speciation(e) => e.prior_time@,
            PackedEvent::Dispersal(e) => e.prior_time@,
        }
    }

    /// Whether this record removes its lineage from the simulation: a
    /// speciation, or a dispersal that coalesced.
    pub open spec fn spec_is_terminal(&self) -> bool {
        match self {
            PackedEvent::Speciation(_) => true,
            PackedEvent::Dispersal(e) => e.interaction is Coalescence,
        }
    }
}

/// How many records of `log` are terminal: speciations plus coalescing
/// dispersals.
pub open spec fn spec_count_terminal(log: Seq<PackedEvent>) -> int
    decreases log.len(),
{
    if log.len() == 0 {
        0
    } else {
        spec_count_terminal(log.drop_last()) + if log.last().spec_is_terminal() {
            1int
        } else {
            0int
        }
    }
}

/// The records of `log` that belong to `reference`, in order.
pub open spec fn spec_events_of(log: Seq<PackedEvent>, reference: GlobalLineageReference) -> Seq<
    PackedEvent,
> {
    log.filter(|e: PackedEvent| e.spec_reference() == reference)
}

/// A lineage's records chain: each one's prior time is the previous
/// one's event time, and event times strictly increase.
pub open spec fn spec_is_event_chain(events: Seq<PackedEvent>) -> bool {
    forall|i: int|
        0 < i < events.len() ==> (#[trigger] events[i]).spec_prior_time() == events[
            i - 1].spec_event_time() && events[i - 1].spec_event_time() < events[
            i].spec_event_time()
}

} // verus!
