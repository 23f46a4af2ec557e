//! Per-location death rates.

use vstd::prelude::*;

verus! {

use crate::bond::NonNegativeF64;
use crate::bond::PositiveF64;
use crate::habitat::InMemoryHabitat;
use crate::habitat::lemma_u32_product_fits_u64;
use crate::habitat::lemma_cell_index_in_range;
use crate::habitat::spec_cell_index;
use crate::landscape::Location;

/// One death rate for every location.
#[derive(Clone, Copy, PartialEq, Eq, Structural, Debug)]
pub struct UniformTurnoverRate {
    pub turnover_rate: PositiveF64,
}

impl UniformTurnoverRate {
    /// The landscape-wide rate `turnover_rate`.
    pub fn new(turnover_rate: PositiveF64) -> (r: Self)
        ensures
            r.turnover_rate == turnover_rate,
    {
        UniformTurnoverRate { turnover_rate }
    }

    /// The rate, wherever the location.
    pub fn get_turnover_rate_at_location(&self, location: &Location) -> (r: PositiveF64)
        ensures
            r == self.turnover_rate,
    {
        self.turnover_rate
    }
}

/// Why an in-memory turnover map was rejected.
#[derive(Clone, Copy, PartialEq, Eq, Structural, Debug)]
pub enum InMemoryTurnoverRateError {
    /// Some location has zero turnover and non-zero habitat.
    ZeroTurnoverHabitat,
}

/// A per-location death rate map, row-major over the habitat grid.
#[derive(PartialEq, Eq, Debug)]
pub struct InMemoryTurnoverRate {
    pub turnover_rate: Vec<NonNegativeF64>,
}

impl InMemoryTurnoverRate {
    /// Accepts the map exactly when every cell inside both the map and
    /// the habitat grid has either a positive rate or no habitat.
    pub fn new(turnover_rate: Vec<NonNegativeF64>, habitat: &InMemoryHabitat) -> (r: Result<
        Self,
        InMemoryTurnoverRateError,
    >)
        requires
            habitat.well_formed(),
        ensures
            match r {
                Ok(t) => {
                    &&& t.turnover_rate@ == turnover_rate@
                    &&& forall|i: int|
                        0 <= i < turnover_rate@.len() && i < habitat.habitat@.len() ==> ((
                        #[trigger] turnover_rate@[i])@ != 0u64 || habitat.habitat@[i] == 0u32)
                },
                Err(e) => {
                    &&& e == InMemoryTurnoverRateError::ZeroTurnoverHabitat
                    &&& exists|i: int|
                        0 <= i < turnover_rate@.len() && i < habitat.habitat@.len() && (
                        #[trigger] turnover_rate@[i])@ == 0u64 && habitat.habitat@[i] != 0u32
                },
            },
    {
        let mut i: usize = 0;
        let bound = if turnover_rate.len() < habitat.habitat.len() {
            turnover_rate.len()
        } else {
            habitat.habitat.len()
        };
        while i < bound
            invariant
                i <= bound,
                bound <= turnover_rate@.len(),
                bound <= habitat.habitat@.len(),
                bound == vstd::math::min(turnover_rate@.len() as int, habitat.habitat@.len() as int),
                forall|j: int|
                    0 <= j < i ==> ((#[trigger] turnover_rate@[j])@ != 0u64 || habitat.habitat@[j]
                        == 0u32),
            decreases bound - i,
        {
            if turnover_rate[i].get() == 0 && habitat.habitat[i] != 0 {
                return Err(InMemoryTurnoverRateError::ZeroTurnoverHabitat);
            }
            i = i + 1;
        }
        Ok(InMemoryTurnoverRate { turnover_rate })
    }

    /// The rate at `location` on the habitat grid, and zero beyond the
    /// stored map.
    pub fn get_turnover_rate_at_location(&self, location: &Location, habitat: &InMemoryHabitat) -> (
    r: NonNegativeF64)
        requires
            habitat.well_formed(),
            habitat.spec_contains(*location),
        ensures
            spec_cell_index(*location, habitat.width) < self.turnover_rate@.len() ==> r
                == self.turnover_rate@[spec_cell_index(*location, habitat.width)],
            spec_cell_index(*location, habitat.width) >= self.turnover_rate@.len() ==> r@ == 0u64,
    {
        proof {
            lemma_cell_index_in_range(*location, habitat.width, habitat.height);
            lemma_u32_product_fits_u64(location.y as u64, habitat.width as u64);
        }
        let cell = (location.y as u64) * (habitat.width as u64) + (location.x as u64);
        let stored = self.turnover_rate.len() as u64;
        if cell < stored {
            self.turnover_rate[cell as usize]
        } else {
            NonNegativeF64::zero()
        }
    }
}

} // verus!
