//! Resume validation and restart fix-up strategies.
//!
//! A resumed simulation is handed a caller-supplied set of lineages.
//! Each one can violate an invariant: collide with another resumed
//! lineage, sit beyond its deme's capacity, or sit outside the
//! habitable landscape. Such exceptional lineages are reported in
//! full — never just the first — and a [`RestartFixUpStrategy`] decides,
//! per failure class, whether to abort or to rehabilitate them.

use vstd::prelude::*;

verus! {

use crate::bond::PositiveF64;
use crate::event::DispersalEvent;
use crate::habitat::InMemoryHabitat;
use crate::landscape::IndexedLocation;
use crate::lineage::GlobalLineageReference;
use crate::lineage::Lineage;
use crate::lineage::LineageInteraction;
use crate::rng::RngCore;

/// What to do with resumed lineages that sit beyond their deme.
#[derive(Clone, Copy, PartialEq, Eq, Structural, Debug)]
pub enum OutOfDemeStrategy {
    Abort,
    Dispersal,
}

/// What to do with resumed lineages that sit outside the habitat.
#[derive(Clone, Copy, PartialEq, Eq, Structural, Debug)]
pub enum OutOfHabitatStrategy {
    Abort,
    UniformDispersal,
}

/// What to do with resumed lineages that collide.
#[derive(Clone, Copy, PartialEq, Eq, Structural, Debug)]
pub enum CoalescenceStrategy {
    Abort,
    Coalescence,
}

/// The per-failure-class restart policy.
#[derive(Clone, Copy, PartialEq, Eq, Structural, Debug)]
pub struct RestartFixUpStrategy {
    pub out_of_deme: OutOfDemeStrategy,
    pub out_of_habitat: OutOfHabitatStrategy,
    pub coalescence: CoalescenceStrategy,
}

impl Default for RestartFixUpStrategy {
    /// Aborting on every failure class.
    fn default() -> (r: Self)
        ensures
            r.out_of_deme == OutOfDemeStrategy::Abort,
            r.out_of_habitat == OutOfHabitatStrategy::Abort,
            r.coalescence == CoalescenceStrategy::Abort,
    {
        RestartFixUpStrategy {
            out_of_deme: OutOfDemeStrategy::Abort,
            out_of_habitat: OutOfHabitatStrategy::Abort,
            coalescence: CoalescenceStrategy::Abort,
        }
    }
}

/// A resumed lineage that violates an invariant.
#[derive(Clone, Copy, PartialEq, Eq, Structural, Debug)]
pub enum ExceptionalLineage {
    Coalescence { child: Lineage, parent: GlobalLineageReference },
    OutOfDeme(Lineage),
    OutOfHabitat(Lineage),
}

/// The exceptional lineages of a resume, split by failure class.
#[derive(PartialEq, Eq, Debug)]
pub struct SplitExceptionalLineages {
    pub coalescence: Vec<(Lineage, GlobalLineageReference)>,
    pub out_of_deme: Vec<Lineage>,
    pub out_of_habitat: Vec<Lineage>,
}

/// The colliding pairs of a batch, in batch order.
pub open spec fn spec_coalescence_of(s: Seq<ExceptionalLineage>) -> Seq<
    (Lineage, GlobalLineageReference),
>
    decreases s.len(),
{
    if s.len() == 0 {
        Seq::empty()
    } else {
        let rest = spec_coalescence_of(s.drop_last());
        match s.last() {
            ExceptionalLineage::Coalescence { child, parent } => rest.push((child, parent)),
            _ => rest,
        }
    }
}

/// The out-of-deme lineages of a batch, in batch order.
pub open spec fn spec_out_of_deme_of(s: Seq<ExceptionalLineage>) -> Seq<Lineage>
    decreases s.len(),
{
    if s.len() == 0 {
        Seq::empty()
    } else {
        let rest = spec_out_of_deme_of(s.drop_last());
        match s.last() {
            ExceptionalLineage::OutOfDeme(lineage) => rest.push(lineage),
            _ => rest,
        }
    }
}

/// The out-of-habitat lineages of a batch, in batch order.
pub open spec fn spec_out_of_habitat_of(s: Seq<ExceptionalLineage>) -> Seq<Lineage>
    decreases s.len(),
{
    if s.len() == 0 {
        Seq::empty()
    } else {
        let rest = spec_out_of_habitat_of(s.drop_last());
        match s.last() {
            ExceptionalLineage::OutOfHabitat(lineage) => rest.push(lineage),
            _ => rest,
        }
    }
}

/// Colliding pairs re-wrapped as exceptional lineages, in order.
pub open spec fn spec_as_coalescence_errors(pairs: Seq<(Lineage, GlobalLineageReference)>) -> Seq<
    ExceptionalLineage,
>
    decreases pairs.len(),
{
    if pairs.len() == 0 {
        Seq::empty()
    } else {
        spec_as_coalescence_errors(pairs.drop_last()).push(
            ExceptionalLineage::Coalescence {
                child: pairs.last().0,
                parent: pairs.last().1,
            },
        )
    }
}

/// Out-of-deme lineages re-wrapped as exceptional lineages, in order.
pub open spec fn spec_as_out_of_deme_errors(lineages: Seq<Lineage>) -> Seq<ExceptionalLineage>
    decreases lineages.len(),
{
    if lineages.len() == 0 {
        Seq::empty()
    } else {
        spec_as_out_of_deme_errors(lineages.drop_last()).push(
            ExceptionalLineage::OutOfDeme(lineages.last()),
        )
    }
}

/// Out-of-habitat lineages re-wrapped as exceptional lineages, in order.
pub open spec fn spec_as_out_of_habitat_errors(lineages: Seq<Lineage>) -> Seq<ExceptionalLineage>
    decreases lineages.len(),
{
    if lineages.len() == 0 {
        Seq::empty()
    } else {
        spec_as_out_of_habitat_errors(lineages.drop_last()).push(
            ExceptionalLineage::OutOfHabitat(lineages.last()),
        )
    }
}

impl ExceptionalLineage {
    /// Splits a batch of exceptional lineages by failure class, keeping
    /// each class's order: each output vector holds exactly its
    /// variant's entries of the input, in input order.
    pub fn split_vec(exceptional_lineages: Vec<ExceptionalLineage>) -> (r:
        SplitExceptionalLineages)
        ensures
            r.coalescence@ == spec_coalescence_of(exceptional_lineages@),
            r.out_of_deme@ == spec_out_of_deme_of(exceptional_lineages@),
            r.out_of_habitat@ == spec_out_of_habitat_of(exceptional_lineages@),
            r.coalescence@.len() + r.out_of_deme@.len() + r.out_of_habitat@.len()
                == exceptional_lineages@.len(),
    {
        let mut coalescence: Vec<(Lineage, GlobalLineageReference)> = Vec::new();
        let mut out_of_deme: Vec<Lineage> = Vec::new();
        let mut out_of_habitat: Vec<Lineage> = Vec::new();
        let mut i: usize = 0;
        while i < exceptional_lineages.len()
            invariant
                i <= exceptional_lineages@.len(),
                coalescence@ == spec_coalescence_of(exceptional_lineages@.subrange(0, i as int)),
                out_of_deme@ == spec_out_of_deme_of(exceptional_lineages@.subrange(0, i as int)),
                out_of_habitat@ == spec_out_of_habitat_of(
                    exceptional_lineages@.subrange(0, i as int),
                ),
                coalescence@.len() + out_of_deme@.len() + out_of_habitat@.len() == i,
            decreases exceptional_lineages@.len() - i,
        {
            proof {
                assert(exceptional_lineages@.subrange(0, (i + 1) as int).drop_last()
                    =~= exceptional_lineages@.subrange(0, i as int));
            }
            match exceptional_lineages[i] {
                ExceptionalLineage::Coalescence { child, parent } => {
                    coalescence.push((child, parent));
                },
                ExceptionalLineage::OutOfDeme(lineage) => {
                    out_of_deme.push(lineage);
                },
                ExceptionalLineage::OutOfHabitat(lineage) => {
                    out_of_habitat.push(lineage);
                },
            }
            i = i + 1;
        }
        proof {
            assert(exceptional_lineages@.subrange(0, exceptional_lineages@.len() as int)
                =~= exceptional_lineages@);
        }
        SplitExceptionalLineages { coalescence, out_of_deme, out_of_habitat }
    }
}

/// What a fix-up decided: the lineages to rehabilitate by a forced
/// dispersal, and the synthetic coalescence records to log so the event
/// history stays consistent.
#[derive(PartialEq, Eq, Debug)]
pub struct FixUpPlan {
    pub fixable_lineages: Vec<Lineage>,
    pub coalescence_events: Vec<DispersalEvent>,
}

/// Applies the restart policy to the split failure classes. The result
/// is an error exactly when some class set to abort has members; the
/// error then holds exactly the members of the aborting classes, in
/// class order (collisions, then out-of-deme, then out-of-habitat),
/// each within its class in input order. Otherwise colliding lineages
/// become synthetic coalescence records at `restart_at` — one per pair,
/// in input order, naming the child, its clock and its slot — and the
/// misplaced lineages are queued for a forced dispersal, out-of-deme
/// before out-of-habitat, each class in input order.
pub fn apply_fixup_strategy(
    split: SplitExceptionalLineages,
    fixup_strategy: RestartFixUpStrategy,
    restart_at: PositiveF64,
) -> (r: Result<FixUpPlan, Vec<ExceptionalLineage>>)
    ensures
        r is Err <==> ((fixup_strategy.coalescence == CoalescenceStrategy::Abort
            && split.coalescence@.len() > 0) || (fixup_strategy.out_of_deme
            == OutOfDemeStrategy::Abort && split.out_of_deme@.len() > 0) || (
        fixup_strategy.out_of_habitat == OutOfHabitatStrategy::Abort && split.out_of_habitat@.len()
            > 0)),
        match r {
            Ok(plan) => {
                &&& plan.fixable_lineages@ == (
                if fixup_strategy.out_of_deme == OutOfDemeStrategy::Dispersal {
                    split.out_of_deme@
                } else {
                    Seq::empty()
                }) + (if fixup_strategy.out_of_habitat == OutOfHabitatStrategy::UniformDispersal {
                    split.out_of_habitat@
                } else {
                    Seq::empty()
                })
                &&& plan.coalescence_events@.len() == (
                if fixup_strategy.coalescence == CoalescenceStrategy::Coalescence {
                    split.coalescence@.len() as int
                } else {
                    0int
                })
                &&& forall|i: int|
                    0 <= i < plan.coalescence_events@.len() ==> {
                        let child = split.coalescence@[i].0;
                        let ev = #[trigger] plan.coalescence_events@[i];
                        &&& ev.global_lineage_reference == child.global_reference
                        &&& ev.prior_time == child.last_event_time
                        &&& ev.event_time == restart_at
                        &&& ev.origin == child.indexed_location
                        &&& ev.target == child.indexed_location
                        &&& ev.interaction == LineageInteraction::Coalescence(
                            split.coalescence@[i].1,
                        )
                    }
            },
            Err(exceptional) => exceptional@ == (
            if fixup_strategy.coalescence == CoalescenceStrategy::Abort {
                spec_as_coalescence_errors(split.coalescence@)
            } else {
                Seq::empty()
            }) + (if fixup_strategy.out_of_deme == OutOfDemeStrategy::Abort {
                spec_as_out_of_deme_errors(split.out_of_deme@)
            } else {
                Seq::empty()
            }) + (if fixup_strategy.out_of_habitat == OutOfHabitatStrategy::Abort {
                spec_as_out_of_habitat_errors(split.out_of_habitat@)
            } else {
                Seq::empty()
            }),
        },
{
    let ghost coalescence_errors: Seq<ExceptionalLineage> =
        if fixup_strategy.coalescence == CoalescenceStrategy::Abort {
            spec_as_coalescence_errors(split.coalescence@)
        } else {
            Seq::empty()
        };
    let ghost deme_errors: Seq<ExceptionalLineage> =
        if fixup_strategy.out_of_deme == OutOfDemeStrategy::Abort {
            spec_as_out_of_deme_errors(split.out_of_deme@)
        } else {
            Seq::empty()
        };
    let ghost habitat_errors: Seq<ExceptionalLineage> =
        if fixup_strategy.out_of_habitat == OutOfHabitatStrategy::Abort {
            spec_as_out_of_habitat_errors(split.out_of_habitat@)
        } else {
            Seq::empty()
        };
    let mut exceptional: Vec<ExceptionalLineage> = Vec::new();
    let mut fixable: Vec<Lineage> = Vec::new();
    let mut coalescence_events: Vec<DispersalEvent> = Vec::new();
    match fixup_strategy.coalescence {
        CoalescenceStrategy::Abort => {
            let mut i: usize = 0;
            while i < split.coalescence.len()
                invariant
                    i <= split.coalescence@.len(),
                    exceptional@ == spec_as_coalescence_errors(
                        split.coalescence@.subrange(0, i as int),
                    ),
                decreases split.coalescence@.len() - i,
            {
                proof {
                    assert(split.coalescence@.subrange(0, (i + 1) as int).drop_last()
                        =~= split.coalescence@.subrange(0, i as int));
                }
                let (child, parent) = split.coalescence[i];
                exceptional.push(ExceptionalLineage::Coalescence { child, parent });
                i = i + 1;
            }
            proof {
                assert(split.coalescence@.subrange(0, split.coalescence@.len() as int)
                    =~= split.coalescence@);
            }
        },
        CoalescenceStrategy::Coalescence => {
            let mut i: usize = 0;
            while i < split.coalescence.len()
                invariant
                    i <= split.coalescence@.len(),
                    coalescence_events@.len() == i,
                    forall|j: int|
                        0 <= j < i ==> {
                            let child = split.coalescence@[j].0;
                            let ev = #[trigger] coalescence_events@[j];
                            &&& ev.global_lineage_reference == child.global_reference
                            &&& ev.prior_time == child.last_event_time
                            &&& ev.event_time == restart_at
                            &&& ev.origin == child.indexed_location
                            &&& ev.target == child.indexed_location
                            &&& ev.interaction == LineageInteraction::Coalescence(
                                split.coalescence@[j].1,
                            )
                        },
                decreases split.coalescence@.len() - i,
            {
                let (child, parent) = split.coalescence[i];
                coalescence_events.push(
                    DispersalEvent {
                        global_lineage_reference: child.global_reference,
                        prior_time: child.last_event_time,
                        event_time: restart_at,
                        origin: child.indexed_location,
                        target: child.indexed_location,
                        interaction: LineageInteraction::Coalescence(parent),
                    },
                );
                i = i + 1;
            }
        },
    }
    match fixup_strategy.out_of_deme {
        OutOfDemeStrategy::Abort => {
            let mut i: usize = 0;
            while i < split.out_of_deme.len()
                invariant
                    i <= split.out_of_deme@.len(),
                    exceptional@ == coalescence_errors + spec_as_out_of_deme_errors(
                        split.out_of_deme@.subrange(0, i as int),
                    ),
                decreases split.out_of_deme@.len() - i,
            {
                proof {
                    assert(split.out_of_deme@.subrange(0, (i + 1) as int).drop_last()
                        =~= split.out_of_deme@.subrange(0, i as int));
                }
                exceptional.push(ExceptionalLineage::OutOfDeme(split.out_of_deme[i]));
                i = i + 1;
            }
            proof {
                assert(split.out_of_deme@.subrange(0, split.out_of_deme@.len() as int)
                    =~= split.out_of_deme@);
            }
        },
        OutOfDemeStrategy::Dispersal => {
            let mut i: usize = 0;
            while i < split.out_of_deme.len()
                invariant
                    i <= split.out_of_deme@.len(),
                    exceptional@ == coalescence_errors,
                    fixable@ == split.out_of_deme@.subrange(0, i as int),
                decreases split.out_of_deme@.len() - i,
            {
                proof {
                    assert(split.out_of_deme@.subrange(0, (i + 1) as int)
                        =~= split.out_of_deme@.subrange(0, i as int).push(
                        split.out_of_deme@[i as int],
                    ));
                }
                fixable.push(split.out_of_deme[i]);
                i = i + 1;
            }
            proof {
                assert(split.out_of_deme@.subrange(0, split.out_of_deme@.len() as int)
                    =~= split.out_of_deme@);
            }
        },
    }
    match fixup_strategy.out_of_habitat {
        OutOfHabitatStrategy::Abort => {
            let mut i: usize = 0;
            while i < split.out_of_habitat.len()
                invariant
                    i <= split.out_of_habitat@.len(),
                    exceptional@ == coalescence_errors + deme_errors
                        + spec_as_out_of_habitat_errors(
                        split.out_of_habitat@.subrange(0, i as int),
                    ),
                decreases split.out_of_habitat@.len() - i,
            {
                proof {
                    assert(split.out_of_habitat@.subrange(0, (i + 1) as int).drop_last()
                        =~= split.out_of_habitat@.subrange(0, i as int));
                }
                exceptional.push(ExceptionalLineage::OutOfHabitat(split.out_of_habitat[i]));
                i = i + 1;
            }
            proof {
                assert(split.out_of_habitat@.subrange(0, split.out_of_habitat@.len() as int)
                    =~= split.out_of_habitat@);
            }
        },
        OutOfHabitatStrategy::UniformDispersal => {
            let ghost fixable_base = fixable@;
            let mut i: usize = 0;
            while i < split.out_of_habitat.len()
                invariant
                    i <= split.out_of_habitat@.len(),
                    exceptional@ == coalescence_errors + deme_errors,
                    fixable@ == fixable_base + split.out_of_habitat@.subrange(0, i as int),
                decreases split.out_of_habitat@.len() - i,
            {
                proof {
                    assert(split.out_of_habitat@.subrange(0, (i + 1) as int)
                        =~= split.out_of_habitat@.subrange(0, i as int).push(
                        split.out_of_habitat@[i as int],
                    ));
                    assert(fixable_base + split.out_of_habitat@.subrange(0, (i + 1) as int)
                        =~= (fixable_base + split.out_of_habitat@.subrange(0, i as int)).push(
                        split.out_of_habitat@[i as int],
                    ));
                }
                fixable.push(split.out_of_habitat[i]);
                i = i + 1;
            }
            proof {
                assert(split.out_of_habitat@.subrange(0, split.out_of_habitat@.len() as int)
                    =~= split.out_of_habitat@);
            }
        },
    }
    proof {
        lemma_as_errors_lengths(split.coalescence@, split.out_of_deme@, split.out_of_habitat@);
    }
    if exceptional.len() > 0 {
        return Err(exceptional);
    }
    proof {
        assert(Seq::<ExceptionalLineage>::empty() + Seq::<ExceptionalLineage>::empty()
            =~= Seq::<ExceptionalLineage>::empty());
        if fixup_strategy.out_of_deme == OutOfDemeStrategy::Abort {
            assert(fixable@ + Seq::<Lineage>::empty() =~= fixable@);
        }
        if fixup_strategy.out_of_habitat == OutOfHabitatStrategy::Abort {
            assert(fixable@ + Seq::<Lineage>::empty() =~= fixable@);
        }
    }
    Ok(FixUpPlan { fixable_lineages: fixable, coalescence_events })
}

/// The re-wrapped error sequences are as long as their sources.
proof fn lemma_as_errors_lengths(
    pairs: Seq<(Lineage, GlobalLineageReference)>,
    out_of_deme: Seq<Lineage>,
    out_of_habitat: Seq<Lineage>,
)
    ensures
        spec_as_coalescence_errors(pairs).len() == pairs.len(),
        spec_as_out_of_deme_errors(out_of_deme).len() == out_of_deme.len(),
        spec_as_out_of_habitat_errors(out_of_habitat).len() == out_of_habitat.len(),
    decreases pairs.len() + out_of_deme.len() + out_of_habitat.len(),
{
    if pairs.len() > 0 {
        lemma_as_errors_lengths(pairs.drop_last(), out_of_deme, out_of_habitat);
    } else if out_of_deme.len() > 0 {
        lemma_as_errors_lengths(pairs, out_of_deme.drop_last(), out_of_habitat);
    } else if out_of_habitat.len() > 0 {
        lemma_as_errors_lengths(pairs, out_of_deme, out_of_habitat.drop_last());
    }
}

/// Forces one uniform anti-trespassing dispersal for each fixable
/// lineage: every returned lineage sits on a habitable slot and carries
/// `restart_at` as its last event time, alongside the synthetic record
/// of the forced move.
pub fn uniform_fixup_dispersal<G: RngCore>(
    habitat: &InMemoryHabitat,
    rng: &mut G,
    fixable_lineages: Vec<Lineage>,
    restart_at: PositiveF64,
) -> (r: (Vec<Lineage>, Vec<DispersalEvent>))
    requires
        habitat.well_formed(),
    ensures
        r.0@.len() == fixable_lineages@.len(),
        r.1@.len() == fixable_lineages@.len(),
        forall|i: int|
            0 <= i < r.0@.len() ==> habitat.spec_is_indexed_location_habitable(
                (#[trigger] r.0@[i]).indexed_location,
            ) && r.0@[i].last_event_time@ == restart_at@ && r.0@[i].global_reference
                == fixable_lineages@[i].global_reference,
        forall|i: int|
            0 <= i < r.1@.len() ==> (#[trigger] r.1@[i]).event_time == restart_at
                && r.1@[i].target == r.0@[i].indexed_location && r.1@[i].global_lineage_reference
                == fixable_lineages@[i].global_reference,
{
    proof {
        use_type_invariant(restart_at);
    }
    let mut relocated: Vec<Lineage> = Vec::new();
    let mut events: Vec<DispersalEvent> = Vec::new();
    let mut i: usize = 0;
    while i < fixable_lineages.len()
        invariant
            habitat.well_formed(),
            crate::float_bits::is_nonnegative_bits(restart_at@),
            i <= fixable_lineages@.len(),
            relocated@.len() == i,
            events@.len() == i,
            forall|j: int|
                0 <= j < i ==> habitat.spec_is_indexed_location_habitable(
                    (#[trigger] relocated@[j]).indexed_location,
                ) && relocated@[j].last_event_time@ == restart_at@ && relocated@[j].global_reference
                    == fixable_lineages@[j].global_reference,
            forall|j: int|
                0 <= j < i ==> (#[trigger] events@[j]).event_time == restart_at && events@[j].target
                    == relocated@[j].indexed_location && events@[j].global_lineage_reference
                    == fixable_lineages@[j].global_reference,
        decreases fixable_lineages@.len() - i,
    {
        let lineage = fixable_lineages[i];
        let total = habitat.cumulative[habitat.cumulative.len() - 1];
        let gidx = crate::rng::sample_index_u64(rng, total);
        let target = habitat.index_to_indexed_location(gidx);
        relocated.push(
            Lineage {
                global_reference: lineage.global_reference,
                indexed_location: target,
                last_event_time: restart_at.into_non_negative(),
            },
        );
        events.push(
            DispersalEvent {
                global_lineage_reference: lineage.global_reference,
                prior_time: lineage.last_event_time,
                event_time: restart_at,
                origin: lineage.indexed_location,
                target,
                interaction: LineageInteraction::Maybe,
            },
        );
        i = i + 1;
    }
    (relocated, events)
}

} // verus!
