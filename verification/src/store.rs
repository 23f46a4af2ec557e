//! The arena of active lineages.
//!
//! Slots are never reused within one simulation: a lineage keeps its
//! slot index for its whole life, and a removed lineage leaves an empty
//! slot behind. The store guarantees that no two active lineages share
//! an indexed location or a global reference.

use vstd::prelude::*;

verus! {

use crate::habitat::InMemoryHabitat;
use crate::landscape::IndexedLocation;
use crate::lineage::GlobalLineageReference;
use crate::lineage::Lineage;

/// How many slots of `s` are occupied.
pub open spec fn spec_count_some(s: Seq<Option<Lineage>>) -> int
    decreases s.len(),
{
    if s.len() == 0 {
        0
    } else {
        spec_count_some(s.drop_last()) + if s.last() is Some {
            1int
        } else {
            0int
        }
    }
}

/// Occupancy counts lie between zero and the slot count.
pub proof fn lemma_count_some_bounds(s: Seq<Option<Lineage>>)
    ensures
        0 <= spec_count_some(s) <= s.len(),
    decreases s.len(),
{
    if s.len() > 0 {
        lemma_count_some_bounds(s.drop_last());
    }
}

/// A positive occupancy count means some slot is occupied.
pub proof fn lemma_count_some_positive(s: Seq<Option<Lineage>>)
    requires
        spec_count_some(s) > 0,
    ensures
        exists|i: int| 0 <= i < s.len() && s[i] is Some,
    decreases s.len(),
{
    if s.len() > 0 {
        if s.last() is Some {
            assert(s[s.len() - 1] is Some);
        } else {
            lemma_count_some_positive(s.drop_last());
            let i = choose|i: int| 0 <= i < s.drop_last().len() && s.drop_last()[i] is Some;
            assert(s[i] is Some);
        }
    }
}

/// Replacing one slot adjusts the occupancy count by the difference.
pub proof fn lemma_count_some_update(s: Seq<Option<Lineage>>, i: int, v: Option<Lineage>)
    requires
        0 <= i < s.len(),
    ensures
        spec_count_some(s.update(i, v)) == spec_count_some(s) + (if v is Some {
            1int
        } else {
            0int
        }) - (if s[i] is Some {
            1int
        } else {
            0int
        }),
    decreases s.len(),
{
    if i == s.len() - 1 {
        assert(s.update(i, v).drop_last() =~= s.drop_last());
    } else {
        assert(s.update(i, v).drop_last() =~= s.drop_last().update(i, v));
        lemma_count_some_update(s.drop_last(), i, v);
    }
}

/// A locally coherent lineage store: an arena of slots, at most one
/// active lineage per indexed location and per global reference.
#[derive(PartialEq, Eq, Debug)]
pub struct ClassicalLineageStore {
    pub lineages: Vec<Option<Lineage>>,
}

impl ClassicalLineageStore {
    /// Every active lineage sits on a habitable slot, and no two share
    /// an indexed location or a global reference.
    pub open spec fn well_formed(&self, habitat: &InMemoryHabitat) -> bool {
        &&& forall|s: int|
            0 <= s < self.lineages@.len() && self.lineages@[s] is Some
                ==> habitat.spec_is_indexed_location_habitable(
                (#[trigger] self.lineages@[s])->Some_0.indexed_location,
            )
        &&& forall|s1: int, s2: int|
            0 <= s1 < s2 < self.lineages@.len() && self.lineages@[s1] is Some
                && self.lineages@[s2] is Some ==> (#[trigger] self.lineages@[s1])->Some_0.indexed_location
                != (#[trigger] self.lineages@[s2])->Some_0.indexed_location
        &&& forall|s1: int, s2: int|
            0 <= s1 < s2 < self.lineages@.len() && self.lineages@[s1] is Some
                && self.lineages@[s2] is Some ==> (#[trigger] self.lineages@[s1])->Some_0.global_reference
                != (#[trigger] self.lineages@[s2])->Some_0.global_reference
    }

    /// How many lineages are active.
    pub open spec fn spec_active_count(&self) -> int {
        spec_count_some(self.lineages@)
    }

    /// An empty store.
    pub fn new() -> (r: Self)
        ensures
            forall|h: &InMemoryHabitat| r.well_formed(h),
            r.spec_active_count() == 0,
            r.lineages@.len() == 0,
    {
        ClassicalLineageStore { lineages: Vec::new() }
    }

    /// The number of active lineages, counted slot by slot.
    pub fn number_active_lineages(&self) -> (r: usize)
        ensures
            r == self.spec_active_count(),
    {
        let mut count: usize = 0;
        let mut i: usize = 0;
        while i < self.lineages.len()
            invariant
                i <= self.lineages@.len(),
                count == spec_count_some(self.lineages@.subrange(0, i as int)),
                count <= i,
            decreases self.lineages@.len() - i,
        {
            proof {
                assert(self.lineages@.subrange(0, (i + 1) as int).drop_last()
                    =~= self.lineages@.subrange(0, i as int));
            }
            if self.lineages[i].is_some() {
                count = count + 1;
            }
            i = i + 1;
        }
        proof {
            assert(self.lineages@.subrange(0, self.lineages@.len() as int) =~= self.lineages@);
        }
        count
    }

    /// The slot of the active lineage at `indexed_location`, if any.
    pub fn find_lineage_at(&self, indexed_location: &IndexedLocation) -> (r: Option<usize>)
        ensures
            match r {
                Some(s) => s < self.lineages@.len() && self.lineages@[s as int] is Some
                    && self.lineages@[s as int]->Some_0.indexed_location == *indexed_location,
                None => forall|s: int|
                    0 <= s < self.lineages@.len() && self.lineages@[s] is Some ==> (
                    #[trigger] self.lineages@[s])->Some_0.indexed_location != *indexed_location,
            },
    {
        let mut i: usize = 0;
        while i < self.lineages.len()
            invariant
                i <= self.lineages@.len(),
                forall|s: int|
                    0 <= s < i && self.lineages@[s] is Some ==> (
                    #[trigger] self.lineages@[s])->Some_0.indexed_location != *indexed_location,
            decreases self.lineages@.len() - i,
        {
            match &self.lineages[i] {
                Some(lineage) => {
                    if lineage.indexed_location.location.x == indexed_location.location.x
                        && lineage.indexed_location.location.y == indexed_location.location.y
                        && lineage.indexed_location.index == indexed_location.index {
                        return Some(i);
                    }
                },
                None => {
                },
            }
            i = i + 1;
        }
        None
    }

    /// The slot of the active lineage carrying `reference`, if any.
    pub fn find_reference(&self, reference: &GlobalLineageReference) -> (r: Option<usize>)
        ensures
            match r {
                Some(s) => s < self.lineages@.len() && self.lineages@[s as int] is Some
                    && self.lineages@[s as int]->Some_0.global_reference == *reference,
                None => forall|s: int|
                    0 <= s < self.lineages@.len() && self.lineages@[s] is Some ==> (
                    #[trigger] self.lineages@[s])->Some_0.global_reference != *reference,
            },
    {
        let mut i: usize = 0;
        while i < self.lineages.len()
            invariant
                i <= self.lineages@.len(),
                forall|s: int|
                    0 <= s < i && self.lineages@[s] is Some ==> (
                    #[trigger] self.lineages@[s])->Some_0.global_reference != *reference,
            decreases self.lineages@.len() - i,
        {
            match &self.lineages[i] {
                Some(lineage) => {
                    if lineage.global_reference.id == reference.id {
                        return Some(i);
                    }
                },
                None => {
                },
            }
            i = i + 1;
        }
        None
    }

    /// Appends a new active lineage and hands back its slot.
    pub fn append_lineage(&mut self, habitat: &InMemoryHabitat, lineage: Lineage) -> (r: usize)
        requires
            old(self).well_formed(habitat),
            habitat.spec_is_indexed_location_habitable(lineage.indexed_location),
            forall|s: int|
                0 <= s < old(self).lineages@.len() && old(self).lineages@[s] is Some ==> (
                #[trigger] old(self).lineages@[s])->Some_0.indexed_location
                    != lineage.indexed_location,
            forall|s: int|
                0 <= s < old(self).lineages@.len() && old(self).lineages@[s] is Some ==> (
                #[trigger] old(self).lineages@[s])->Some_0.global_reference
                    != lineage.global_reference,
        ensures
            final(self).well_formed(habitat),
            final(self).lineages@ == old(self).lineages@.push(Some(lineage)),
            final(self).spec_active_count() == old(self).spec_active_count() + 1,
            r == old(self).lineages@.len(),
    {
        let r = self.lineages.len();
        self.lineages.push(Some(lineage));
        proof {
            assert(self.lineages@.drop_last() =~= old(self).lineages@);
        }
        r
    }

    /// Removes the lineage in `slot` and hands it out.
    pub fn extract_lineage(&mut self, slot: usize) -> (r: Lineage)
        requires
            slot < old(self).lineages@.len(),
            old(self).lineages@[slot as int] is Some,
        ensures
            Some(r) == old(self).lineages@[slot as int],
            final(self).lineages@ == old(self).lineages@.update(slot as int, Option::None),
            final(self).spec_active_count() == old(self).spec_active_count() - 1,
            forall|h: &InMemoryHabitat| old(self).well_formed(h) ==> final(self).well_formed(h),
    {
        proof {
            lemma_count_some_update(self.lineages@, slot as int, Option::None);
        }
        let mut taken: Option<Lineage> = Option::None;
        let slot_ref = &mut self.lineages[slot];
        core::mem::swap(slot_ref, &mut taken);
        proof {
            assert(self.lineages@ =~= old(self).lineages@.update(slot as int, Option::None));
        }
        match taken {
            Some(lineage) => lineage,
            None => {
                proof {
                    assert(false);
                }
                Lineage::new(
                    GlobalLineageReference { id: 0 },
                    IndexedLocation {
                        location: crate::landscape::Location { x: 0, y: 0 },
                        index: 0,
                    },
                )
            },
        }
    }

    /// Puts `lineage` back into `slot`, which must be empty, keeping
    /// uniqueness of locations and references.
    pub fn place_lineage(&mut self, habitat: &InMemoryHabitat, slot: usize, lineage: Lineage)
        requires
            old(self).well_formed(habitat),
            slot < old(self).lineages@.len(),
            old(self).lineages@[slot as int] is None,
            habitat.spec_is_indexed_location_habitable(lineage.indexed_location),
            forall|s: int|
                0 <= s < old(self).lineages@.len() && old(self).lineages@[s] is Some ==> (
                #[trigger] old(self).lineages@[s])->Some_0.indexed_location
                    != lineage.indexed_location,
            forall|s: int|
                0 <= s < old(self).lineages@.len() && old(self).lineages@[s] is Some ==> (
                #[trigger] old(self).lineages@[s])->Some_0.global_reference
                    != lineage.global_reference,
        ensures
            final(self).well_formed(habitat),
            final(self).lineages@ == old(self).lineages@.update(slot as int, Some(lineage)),
            final(self).spec_active_count() == old(self).spec_active_count() + 1,
    {
        proof {
            lemma_count_some_update(self.lineages@, slot as int, Some(lineage));
        }
        let slot_ref = &mut self.lineages[slot];
        *slot_ref = Some(lineage);
        proof {
            assert(self.lineages@ =~= old(self).lineages@.update(slot as int, Some(lineage)));
        }
    }
}

} // verus!
