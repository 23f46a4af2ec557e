//! The in-memory cumulative dispersal sampler.
//!
//! Given a row-major dispersal matrix over the habitat grid, each entry
//! is weighted by the capacity of its target cell and the row is
//! normalised into a cumulative distribution. Alongside each entry the
//! sampler stores the column of the last strictly positive weight at or
//! before it, so that a draw can never land on a zero-weight — and in
//! particular never on an uninhabitable — target, even under
//! floating-point slack: that is the sampler's validity contract, and
//! here it is proved rather than asserted.

use vstd::prelude::*;

verus! {

use crate::bond::ClosedUnitF64;
use crate::bond::NonNegativeF64;
use crate::float_bits::INFINITY_BITS;
use crate::float_bits::ONE_BITS;
use crate::float_bits::compose_f64_from_u64;
use crate::float_bits::is_finite_bits;
use crate::float_bits::is_nonnegative_bits;
use crate::habitat::InMemoryHabitat;
use crate::landscape::Location;
use crate::maths::MathsCore;
use crate::rng::RngCore;
use crate::rng::sample_u53;
use crate::scenario::InMemoryDispersalSamplerError;

/// A dispersal matrix is acceptable input exactly when every entry is
/// finite and every strictly positive entry targets a habitable column.
pub open spec fn spec_dispersal_entries_valid(
    dispersal: Seq<NonNegativeF64>,
    habitat: &InMemoryHabitat,
) -> bool {
    forall|j: int|
        0 <= j < dispersal.len() ==> is_finite_bits((#[trigger] dispersal[j])@) && ((
        dispersal[j])@ != 0u64 ==> habitat.habitat@[j % (habitat.habitat@.len() as int)] > 0)
}

/// The per-row cumulative dispersal distribution and, per entry, the
/// column of the last valid (strictly positive weight) target at or
/// before it.
#[derive(PartialEq, Eq, Debug)]
pub struct InMemoryCumulativeDispersalSampler {
    pub cumulative_dispersal: Vec<ClosedUnitF64>,
    pub valid_dispersal_targets: Vec<Option<usize>>,
}

impl InMemoryCumulativeDispersalSampler {
    /// Every stored valid target is a habitable column; every non-zero
    /// cumulative entry has a valid target beside it; and every
    /// habitable row closes with an exact cumulative one.
    pub open spec fn well_formed(&self, habitat: &InMemoryHabitat) -> bool {
        let area = habitat.habitat@.len();
        &&& self.cumulative_dispersal@.len() == area * area
        &&& self.valid_dispersal_targets@.len() == area * area
        &&& forall|j: int|
            0 <= j < area * area && (#[trigger] self.valid_dispersal_targets@[j]) is Some ==> {
                let t = self.valid_dispersal_targets@[j]->0;
                t < area && habitat.habitat@[t as int] > 0
            }
        &&& forall|j: int|
            0 <= j < area * area && (#[trigger] self.cumulative_dispersal@[j])@ != 0u64
                ==> self.valid_dispersal_targets@[j] is Some
        &&& forall|row: int|
            0 <= row < area && habitat.habitat@[row] > 0 ==> (
            #[trigger] self.cumulative_dispersal@[row * area + (area - 1)])@ == ONE_BITS
    }

    /// Builds the sampler, enforcing the dispersal validity contract:
    /// the matrix must be the square of the habitat area, all entries
    /// finite, every strictly positive entry must target a habitable
    /// cell, and every habitable cell's weighted row must sum to a
    /// positive finite value.
    pub fn new<M: MathsCore>(dispersal: &Vec<NonNegativeF64>, habitat: &InMemoryHabitat) -> (r:
        Result<Self, InMemoryDispersalSamplerError>)
        requires
            habitat.well_formed(),
        ensures
            match r {
                Ok(sampler) => sampler.well_formed(habitat) && spec_dispersal_entries_valid(
                    dispersal@,
                    habitat,
                ),
                Err(_) => true,
            },
            r == Result::<Self, InMemoryDispersalSamplerError>::Err(
                InMemoryDispersalSamplerError::InconsistentDispersalMapSize,
            ) <==> (habitat.habitat@.len() * habitat.habitat@.len() > usize::MAX || dispersal@.len()
                != habitat.habitat@.len() * habitat.habitat@.len()),
    {
        let area = habitat.habitat.len();
        proof {
            crate::rng::lemma_u64_product_fits_u128(area as u128, area as u128);
        }
        let area_squared: u128 = (area as u128) * (area as u128);
        if area_squared > usize::MAX as u128 || (dispersal.len() as u128) != area_squared {
            return Err(InMemoryDispersalSamplerError::InconsistentDispersalMapSize);
        }
        let total_len = dispersal.len();
        let mut cumulative_dispersal: Vec<ClosedUnitF64> = Vec::new();
        let mut valid_dispersal_targets: Vec<Option<usize>> = Vec::new();
        let mut row: usize = 0;
        while row < area
            invariant
                habitat.well_formed(),
                area == habitat.habitat@.len(),
                dispersal@.len() == area * area,
                total_len == area * area,
                row <= area,
                cumulative_dispersal@.len() == row * area,
                valid_dispersal_targets@.len() == row * area,
                forall|j: int|
                    0 <= j < row * area && (#[trigger] valid_dispersal_targets@[j]) is Some ==> {
                        let t = valid_dispersal_targets@[j]->0;
                        t < area && habitat.habitat@[t as int] > 0
                    },
                forall|j: int|
                    0 <= j < row * area && (#[trigger] cumulative_dispersal@[j])@ != 0u64
                        ==> valid_dispersal_targets@[j] is Some,
                forall|r0: int|
                    0 <= r0 < row && habitat.habitat@[r0] > 0 ==> (
                    #[trigger] cumulative_dispersal@[r0 * area + (area - 1)])@ == ONE_BITS,
                forall|j: int|
                    0 <= j < row * area ==> is_finite_bits((#[trigger] dispersal@[j])@) && ((
                    dispersal@[j])@ != 0u64 ==> habitat.habitat@[j % (area as int)] > 0),
            decreases area - row,
        {
            proof {
                vstd::arithmetic::mul::lemma_mul_inequality(row as int + 1, area as int,
                    area as int);
                vstd::arithmetic::mul::lemma_mul_is_distributive_add_other_way(
                    area as int,
                    row as int,
                    1,
                );
                vstd::arithmetic::mul::lemma_mul_nonnegative(row as int, area as int);
            }
            // weight the row by target capacities, tracking prefix sums
            let mut weights: Vec<u64> = Vec::new();
            let mut prefix: Vec<u64> = Vec::new();
            let mut acc: u64 = 0;
            let mut col: usize = 0;
            proof {
                assert(0u64 >> 63u64 == 0u64 && (0u64 >> 52u64) & 0x7ffu64 == 0u64)
                    by (bit_vector);
            }
            while col < area
                invariant
                    habitat.well_formed(),
                    area == habitat.habitat@.len(),
                    dispersal@.len() == area * area,
                    total_len == area * area,
                    row < area,
                    col <= area,
                    weights@.len() == col,
                    prefix@.len() == col,
                    is_nonnegative_bits(acc),
                    forall|k: int|
                        0 <= k < col ==> is_nonnegative_bits(#[trigger] weights@[k]) && (
                        habitat.habitat@[k] == 0 ==> weights@[k] == 0u64),
                    forall|k: int| 0 <= k < col ==> #[trigger] prefix@[k] <= acc,
                    forall|k: int| 0 <= k < col ==> is_nonnegative_bits(#[trigger] prefix@[k]),
                    col > 0 ==> prefix@[col - 1] == acc,
                    acc != 0u64 ==> exists|k: int| 0 <= k < col && #[trigger] weights@[k] != 0u64,
                    forall|k: int|
                        0 <= k < col && #[trigger] prefix@[k] != 0u64 ==> exists|j: int|
                            0 <= j <= k && #[trigger] weights@[j] != 0u64,
                    row * area + col <= area * area,
                    forall|j: int|
                        0 <= j < row * area + col ==> is_finite_bits((#[trigger] dispersal@[j])@)
                            && ((dispersal@[j])@ != 0u64 ==> habitat.habitat@[j % (area as int)]
                            > 0),
                decreases area - col,
            {
                proof {
                    vstd::arithmetic::mul::lemma_mul_inequality(row as int + 1, area as int,
                        area as int);
                    vstd::arithmetic::mul::lemma_mul_is_distributive_add_other_way(
                        area as int,
                        row as int,
                        1,
                    );
                    vstd::arithmetic::mul::lemma_mul_nonnegative(row as int, area as int);
                }
                let entry = dispersal[row * area + col];
                let entry_bits = entry.get();
                proof {
                    use_type_invariant(entry);
                }
                if entry_bits >= INFINITY_BITS {
                    return Err(InMemoryDispersalSamplerError::InconsistentDispersalProbabilities);
                }
                let capacity = habitat.habitat[col];
                if entry_bits != 0 && capacity == 0 {
                    // a positive weight must not target an uninhabitable cell
                    return Err(InMemoryDispersalSamplerError::InconsistentDispersalProbabilities);
                }
                proof {
                    let eb = entry_bits;
                    assert(eb >> 63u64 == 0u64 && eb < 0x7ff0_0000_0000_0000u64 ==> !((eb
                        >> 52u64) & 0x7ffu64 == 0x7ffu64)) by (bit_vector);
                    // this entry's column is its index modulo the area
                    vstd::arithmetic::div_mod::lemma_mod_multiples_vanish(
                        row as int,
                        col as int,
                        area as int,
                    );
                    vstd::arithmetic::div_mod::lemma_small_mod(col as nat, area as nat);
                    vstd::arithmetic::mul::lemma_mul_is_commutative(row as int, area as int);
                }
                let weight = M::mul_nonneg(entry_bits, compose_f64_from_u64(capacity as u64));
                acc = M::add_nonneg(acc, weight);
                let ghost w_pre = weights@;
                let ghost p_pre = prefix@;
                weights.push(weight);
                prefix.push(acc);
                proof {
                    assert(weights@ == w_pre.push(weight));
                    if acc != 0u64 {
                        if weight != 0u64 {
                            assert(weights@[col as int] != 0u64);
                        } else {
                            let k = choose|k: int| 0 <= k < col && #[trigger] w_pre[k] != 0u64;
                            assert(weights@[k] != 0u64);
                        }
                    }
                    assert forall|k: int|
                        0 <= k < col + 1 && #[trigger] prefix@[k] != 0u64 implies exists|j: int|
                        0 <= j <= k && #[trigger] weights@[j] != 0u64 by {
                        if k == col {
                            if weight != 0u64 {
                                assert(weights@[col as int] != 0u64);
                            } else {
                                let j = choose|j: int|
                                    0 <= j < col && #[trigger] w_pre[j] != 0u64;
                                assert(weights@[j] != 0u64);
                            }
                        } else {
                            let j = choose|j: int| 0 <= j <= k && #[trigger] w_pre[j] != 0u64;
                            assert(weights@[j] != 0u64);
                        }
                    }
                }
                col = col + 1;
            }
            let row_sum = acc;
            let habitable = habitat.habitat[row] > 0;
            if habitable && row_sum == 0 {
                // a habitable cell must disperse somewhere
                return Err(InMemoryDispersalSamplerError::InconsistentDispersalProbabilities);
            }
            if row_sum >= INFINITY_BITS {
                return Err(InMemoryDispersalSamplerError::InconsistentDispersalProbabilities);
            }
            proof {
                let rs = row_sum;
                assert(rs >> 63u64 == 0u64 && rs < 0x7ff0_0000_0000_0000u64 ==> !((rs >> 52u64)
                    & 0x7ffu64 == 0x7ffu64)) by (bit_vector);
            }
            // normalise the prefix sums into the cumulative distribution
            let mut last_valid_target: Option<usize> = None;
            let mut col: usize = 0;
            while col < area
                invariant
                    habitat.well_formed(),
                    area == habitat.habitat@.len(),
                    total_len == area * area,
                    row < area,
                    col <= area,
                    weights@.len() == area,
                    prefix@.len() == area,
                    is_nonnegative_bits(row_sum),
                    is_finite_bits(row_sum),
                    cumulative_dispersal@.len() == row * area + col,
                    valid_dispersal_targets@.len() == row * area + col,
                    forall|k: int|
                        0 <= k < area ==> is_nonnegative_bits(#[trigger] weights@[k]) && (
                        habitat.habitat@[k] == 0 ==> weights@[k] == 0u64),
                    forall|k: int| 0 <= k < area ==> #[trigger] prefix@[k] <= row_sum,
                    forall|k: int| 0 <= k < area ==> is_nonnegative_bits(#[trigger] prefix@[k]),
                    forall|k: int|
                        0 <= k < area && #[trigger] prefix@[k] != 0u64 ==> exists|j: int|
                            0 <= j <= k && #[trigger] weights@[j] != 0u64,
                    area > 0 ==> prefix@[area - 1] == row_sum,
                    match last_valid_target {
                        Some(t) => t < area && weights@[t as int] != 0u64,
                        None => forall|k: int| 0 <= k < col ==> #[trigger] weights@[k] == 0u64,
                    },
                    (habitat.habitat@[row as int] > 0 && col == area) ==> (
                    cumulative_dispersal@[row * area + (area - 1)])@ == ONE_BITS,
                    forall|r0: int|
                        0 <= r0 < row && habitat.habitat@[r0] > 0 ==> (
                        #[trigger] cumulative_dispersal@[r0 * area + (area - 1)])@ == ONE_BITS,
                    forall|j: int|
                        0 <= j < row * area + col && (
                        #[trigger] valid_dispersal_targets@[j]) is Some ==> {
                            let t = valid_dispersal_targets@[j]->0;
                            t < area && habitat.habitat@[t as int] > 0
                        },
                    forall|j: int|
                        0 <= j < row * area + col && (#[trigger] cumulative_dispersal@[j])@
                            != 0u64 ==> valid_dispersal_targets@[j] is Some,
                    forall|r0: int|
                        0 <= r0 < row && habitat.habitat@[r0] > 0 ==> (
                        #[trigger] cumulative_dispersal@[r0 * area + (area - 1)])@ == ONE_BITS,
                    habitat.habitat@[row as int] > 0 ==> row_sum != 0u64,
                    row * area + area <= area * area,
                    forall|j: int|
                        0 <= j < row * area + area ==> is_finite_bits((#[trigger] dispersal@[j])@)
                            && ((dispersal@[j])@ != 0u64 ==> habitat.habitat@[j % (area as int)]
                            > 0),
                decreases area - col,
            {
                let weight = weights[col];
                if weight != 0 {
                    last_valid_target = Some(col);
                }
                let entry: ClosedUnitF64 = if row_sum == 0 {
                    ClosedUnitF64::zero()
                } else {
                    let q = M::div_nonneg(prefix[col], row_sum);
                    ClosedUnitF64::new_unchecked(q)
                };
                proof {
                    if entry@ != 0u64 {
                        assert(prefix@[col as int] != 0u64);
                        let j = choose|j: int|
                            0 <= j <= col as int && #[trigger] weights@[j] != 0u64;
                        assert(last_valid_target is Some);
                    }
                }
                cumulative_dispersal.push(entry);
                valid_dispersal_targets.push(last_valid_target);
                proof {
                    if col == area - 1 && habitat.habitat@[row as int] > 0 {
                        assert(prefix@[col as int] == row_sum);
                        assert(entry@ == ONE_BITS);
                    }
                    assert forall|r0: int|
                        0 <= r0 < row && habitat.habitat@[r0] > 0 implies (
                    #[trigger] cumulative_dispersal@[r0 * area + (area - 1)])@ == ONE_BITS by {
                        vstd::arithmetic::mul::lemma_mul_inequality(r0 + 1, row as int,
                            area as int);
                        vstd::arithmetic::mul::lemma_mul_is_distributive_add_other_way(
                            area as int,
                            r0,
                            1,
                        );
                        vstd::arithmetic::mul::lemma_mul_nonnegative(r0, area as int);
                    }
                }
                col = col + 1;
            }
            proof {
                vstd::arithmetic::mul::lemma_mul_is_distributive_add_other_way(
                    area as int,
                    row as int,
                    1,
                );
                assert forall|r0: int|
                    0 <= r0 < row + 1 && habitat.habitat@[r0] > 0 implies (
                #[trigger] cumulative_dispersal@[r0 * area + (area - 1)])@ == ONE_BITS by {
                    vstd::arithmetic::mul::lemma_mul_inequality(r0 + 1, row as int + 1,
                        area as int);
                    vstd::arithmetic::mul::lemma_mul_is_distributive_add_other_way(
                        area as int,
                        r0,
                        1,
                    );
                    vstd::arithmetic::mul::lemma_mul_nonnegative(r0, area as int);
                }
            }
            row = row + 1;
        }
        proof {
            vstd::arithmetic::mul::lemma_mul_basics(area as int);
        }
        Ok(InMemoryCumulativeDispersalSampler { cumulative_dispersal, valid_dispersal_targets })
    }

    /// The first column of the origin's cumulative row that exceeds the
    /// drawn quantile; one exists, because a habitable row closes with
    /// an exact one.
    fn find_quantile_column(
        &self,
        habitat: &InMemoryHabitat,
        cell: usize,
        quantile: u64,
    ) -> (r: usize)
        requires
            habitat.well_formed(),
            self.well_formed(habitat),
            cell < habitat.habitat@.len(),
            habitat.habitat@[cell as int] > 0,
            quantile < ONE_BITS,
        ensures
            r < habitat.habitat@.len(),
            (self.cumulative_dispersal@[cell as int * habitat.habitat@.len() + r as int])@
                > quantile,
    {
        let area = habitat.habitat.len();
        let table_len = self.cumulative_dispersal.len();
        proof {
            vstd::arithmetic::mul::lemma_mul_inequality(cell as int + 1, area as int, area as int);
            vstd::arithmetic::mul::lemma_mul_is_distributive_add_other_way(
                area as int,
                cell as int,
                1,
            );
            vstd::arithmetic::mul::lemma_mul_nonnegative(cell as int, area as int);
        }
        let mut col: usize = 0;
        loop
            invariant
                habitat.well_formed(),
                self.well_formed(habitat),
                area == habitat.habitat@.len(),
                table_len == area * area,
                cell < area,
                cell * area + area <= area * area,
                col < area,
                quantile < ONE_BITS,
                habitat.habitat@[cell as int] > 0,
            decreases area - col,
        {
            proof {
                if col == area - 1 {
                    assert(self.cumulative_dispersal@[cell as int * area as int + (area - 1)]@
                        == ONE_BITS);
                }
            }
            if quantile < self.cumulative_dispersal[cell * area + col].get() {
                return col;
            }
            col = col + 1;
        }
    }

    /// Samples a dispersal target for a habitable origin: walk the
    /// origin's cumulative row to the drawn quantile, then coerce the
    /// found column to its last valid target, so a zero-weight — and in
    /// particular an uninhabitable — cell is never returned: whatever
    /// the draw, the result is one of the origin row's stored valid
    /// targets.
    pub fn sample_dispersal_from_location<G: RngCore>(
        &self,
        location: &Location,
        habitat: &InMemoryHabitat,
        rng: &mut G,
    ) -> (r: Location)
        requires
            habitat.well_formed(),
            self.well_formed(habitat),
            habitat.spec_contains(*location),
            habitat.spec_habitat_at(*location) > 0,
        ensures
            habitat.spec_contains(r),
            habitat.spec_habitat_at(r) > 0,
            exists|j: int|
                #![trigger self.valid_dispersal_targets@[crate::habitat::spec_cell_index(*location, habitat.width) * habitat.habitat@.len() + j]]
                {
                    &&& 0 <= j < habitat.habitat@.len()
                    &&& self.valid_dispersal_targets@[crate::habitat::spec_cell_index(
                        *location,
                        habitat.width,
                    ) * habitat.habitat@.len() + j] is Some
                    &&& self.valid_dispersal_targets@[crate::habitat::spec_cell_index(
                        *location,
                        habitat.width,
                    ) * habitat.habitat@.len() + j]->0 as int == crate::habitat::spec_cell_index(
                        r,
                        habitat.width,
                    )
                },
    {
        let area = habitat.habitat.len();
        proof {
            crate::habitat::lemma_cell_index_in_range(*location, habitat.width, habitat.height);
            crate::habitat::lemma_u32_product_fits_u64(location.y as u64, habitat.width as u64);
            vstd::arithmetic::mul::lemma_mul_inequality(
                crate::habitat::spec_cell_index(*location, habitat.width) + 1,
                area as int,
                area as int,
            );
            vstd::arithmetic::mul::lemma_mul_is_distributive_add_other_way(
                area as int,
                crate::habitat::spec_cell_index(*location, habitat.width),
                1,
            );
            vstd::arithmetic::mul::lemma_mul_nonnegative(
                crate::habitat::spec_cell_index(*location, habitat.width),
                area as int,
            );
        }
        let cell = ((location.y as u64) * (habitat.width as u64) + (location.x as u64)) as usize;
        let table_len = self.cumulative_dispersal.len();
        let quantile = crate::float_bits::compose_unit_from_u53(sample_u53(rng));
        let found = self.find_quantile_column(habitat, cell, quantile);
        // coerce to the last valid target at or before the found column
        proof {
            assert(self.cumulative_dispersal@[cell as int * area as int + found as int]@ != 0u64);
        }
        let target_col = match self.valid_dispersal_targets[cell * area + found] {
            Some(t) => t,
            None => {
                proof {
                    assert(false);
                }
                0
            },
        };
        proof {
            lemma_column_roundtrip(target_col as int, habitat.width, habitat.height);
            assert(self.valid_dispersal_targets@[crate::habitat::spec_cell_index(
                *location,
                habitat.width,
            ) * habitat.habitat@.len() + found as int] is Some);
        }
        Location {
            x: (target_col as u64 % (habitat.width as u64)) as u32,
            y: (target_col as u64 / (habitat.width as u64)) as u32,
        }
    }
}

/// Splitting a column number by the grid width recovers an on-grid
/// location.
pub proof fn lemma_column_roundtrip(cell: int, width: u32, height: u32)
    requires
        width >= 1,
        0 <= cell < width * height,
    ensures
        0 <= cell % (width as int) < width,
        0 <= cell / (width as int) < height,
        crate::habitat::spec_cell_index(
            Location { x: (cell % (width as int)) as u32, y: (cell / (width as int)) as u32 },
            width,
        ) == cell,
{
    vstd::arithmetic::div_mod::lemma_fundamental_div_mod(cell, width as int);
    vstd::arithmetic::div_mod::lemma_mod_bound(cell, width as int);
    vstd::arithmetic::div_mod::lemma_div_pos_is_pos(cell, width as int);
    vstd::arithmetic::mul::lemma_mul_is_commutative(width as int, height as int);
    vstd::arithmetic::div_mod::lemma_multiply_divide_lt(cell, width as int, height as int);
    vstd::arithmetic::mul::lemma_mul_is_commutative(cell / (width as int), width as int);
}

} // verus!
