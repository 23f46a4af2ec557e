//! The packed alias-method dispersal sampler.
//!
//! Per origin cell, the capacity-weighted dispersal row is folded into
//! an alias table by Vose's method: every bucket carries an acceptance
//! threshold, its own column and an alias column, so a draw costs one
//! bucket pick and one threshold test. All rows share one packed
//! buffer; each origin keeps the index range of its buckets. As with
//! the cumulative sampler, the tables only ever hold habitable
//! columns — here that is a proved invariant of the construction.

use vstd::prelude::*;

verus! {

use crate::bond::ClosedUnitF64;
use crate::bond::NonNegativeF64;
use crate::cogs::AliasSamplerRange;
use crate::float_bits::INFINITY_BITS;
use crate::float_bits::ONE_BITS;
use crate::float_bits::compose_f64_from_u64;
use crate::float_bits::is_finite_bits;
use crate::float_bits::is_nonnegative_bits;
use crate::habitat::InMemoryHabitat;
use crate::landscape::Location;
use crate::maths::MathsCore;
use crate::rng::RngCore;
use crate::rng::sample_index;
use crate::rng::sample_u53;
use crate::scenario::InMemoryDispersalSamplerError;

/// One alias bucket: accept the bucket's own column `e` below the
/// threshold `u`, fall through to the alias column `k` otherwise.
#[derive(Clone, Copy, PartialEq, Eq, Structural, Debug)]
pub struct AliasMethodSamplerAtom {
    pub u: ClosedUnitF64,
    pub e: usize,
    pub k: usize,
}

/// The per-cell alias ranges over one packed bucket buffer.
#[derive(PartialEq, Eq, Debug)]
pub struct InMemoryPackedAliasDispersalSampler {
    pub alias_dispersal_ranges: Vec<AliasSamplerRange>,
    pub alias_dispersal_buffer: Vec<AliasMethodSamplerAtom>,
}

impl InMemoryPackedAliasDispersalSampler {
    /// One in-bounds range per cell, a non-empty one per habitable
    /// cell, and only habitable columns in any bucket.
    pub open spec fn well_formed(&self, habitat: &InMemoryHabitat) -> bool {
        let area = habitat.habitat@.len();
        &&& self.alias_dispersal_ranges@.len() == area
        &&& forall|r: int|
            0 <= r < area ==> (#[trigger] self.alias_dispersal_ranges@[r]).start
                <= self.alias_dispersal_ranges@[r].end && self.alias_dispersal_ranges@[r].end
                <= self.alias_dispersal_buffer@.len()
        &&& forall|r: int|
            0 <= r < area && habitat.habitat@[r] > 0 ==> (
            #[trigger] self.alias_dispersal_ranges@[r]).start
                < self.alias_dispersal_ranges@[r].end
        &&& forall|j: int|
            0 <= j < self.alias_dispersal_buffer@.len() ==> {
                let atom = #[trigger] self.alias_dispersal_buffer@[j];
                &&& atom.e < area
                &&& habitat.habitat@[atom.e as int] > 0
                &&& atom.k < area
                &&& habitat.habitat@[atom.k as int] > 0
            }
    }

    /// Builds the packed alias tables, under the same validity contract
    /// as the cumulative sampler.
    pub fn new<M: MathsCore>(dispersal: &Vec<NonNegativeF64>, habitat: &InMemoryHabitat) -> (r:
        Result<Self, InMemoryDispersalSamplerError>)
        requires
            habitat.well_formed(),
            habitat.habitat@.len() < 0x20_0000_0000_0000,
        ensures
            match r {
                Ok(sampler) => sampler.well_formed(habitat)
                    && crate::dispersal::spec_dispersal_entries_valid(dispersal@, habitat),
                Err(_) => true,
            },
            r == Result::<Self, InMemoryDispersalSamplerError>::Err(
                InMemoryDispersalSamplerError::InconsistentDispersalMapSize,
            ) <==> (habitat.habitat@.len() * habitat.habitat@.len() > usize::MAX || dispersal@.len()
                != habitat.habitat@.len() * habitat.habitat@.len()),
    {
        let area = habitat.habitat.len();
        proof {
            crate::rng::lemma_u64_product_fits_u128(area as u128, area as u128);
        }
        let area_squared: u128 = (area as u128) * (area as u128);
        if area_squared > usize::MAX as u128 || (dispersal.len() as u128) != area_squared {
            return Err(InMemoryDispersalSamplerError::InconsistentDispersalMapSize);
        }
        let total_len = dispersal.len();
        let mut ranges: Vec<AliasSamplerRange> = Vec::new();
        let mut buffer: Vec<AliasMethodSamplerAtom> = Vec::new();
        let mut row: usize = 0;
        while row < area
            invariant
                habitat.well_formed(),
                area == habitat.habitat@.len(),
                area < 0x20_0000_0000_0000,
                dispersal@.len() == area * area,
                total_len == area * area,
                row <= area,
                ranges@.len() == row,
                forall|r: int|
                    0 <= r < row ==> (#[trigger] ranges@[r]).start <= ranges@[r].end
                        && ranges@[r].end <= buffer@.len(),
                forall|r: int|
                    0 <= r < row && habitat.habitat@[r] > 0 ==> (#[trigger] ranges@[r]).start
                        < ranges@[r].end,
                forall|j: int|
                    0 <= j < buffer@.len() ==> {
                        let atom = #[trigger] buffer@[j];
                        &&& atom.e < area
                        &&& habitat.habitat@[atom.e as int] > 0
                        &&& atom.k < area
                        &&& habitat.habitat@[atom.k as int] > 0
                    },
                forall|j: int|
                    0 <= j < row * area ==> is_finite_bits((#[trigger] dispersal@[j])@) && ((
                    dispersal@[j])@ != 0u64 ==> habitat.habitat@[j % (area as int)] > 0),
            decreases area - row,
        {
            proof {
                vstd::arithmetic::mul::lemma_mul_inequality(row as int + 1, area as int,
                    area as int);
                vstd::arithmetic::mul::lemma_mul_is_distributive_add_other_way(
                    area as int,
                    row as int,
                    1,
                );
                vstd::arithmetic::mul::lemma_mul_nonnegative(row as int, area as int);
            }
            // collect the strictly positive capacity-weighted entries
            let mut cols: Vec<usize> = Vec::new();
            let mut weights: Vec<u64> = Vec::new();
            let mut acc: u64 = 0;
            let mut col: usize = 0;
            proof {
                assert(0u64 >> 63u64 == 0u64 && (0u64 >> 52u64) & 0x7ffu64 == 0u64)
                    by (bit_vector);
            }
            while col < area
                invariant
                    habitat.well_formed(),
                    area == habitat.habitat@.len(),
                    dispersal@.len() == area * area,
                    total_len == area * area,
                    row < area,
                    col <= area,
                    cols@.len() == weights@.len(),
                    cols@.len() <= col,
                    is_nonnegative_bits(acc),
                    forall|k: int|
                        0 <= k < cols@.len() ==> (#[trigger] cols@[k]) < area
                            && habitat.habitat@[cols@[k] as int] > 0,
                    forall|k: int|
                        0 <= k < weights@.len() ==> is_nonnegative_bits(#[trigger] weights@[k]),
                    habitat.habitat@[row as int] > 0 && acc != 0u64 ==> cols@.len() > 0,
                    acc == 0u64 ==> cols@.len() == 0,
                    row * area + col <= area * area,
                    forall|j: int|
                        0 <= j < row * area + col ==> is_finite_bits((#[trigger] dispersal@[j])@)
                            && ((dispersal@[j])@ != 0u64 ==> habitat.habitat@[j % (area as int)]
                            > 0),
                decreases area - col,
            {
                proof {
                    vstd::arithmetic::mul::lemma_mul_inequality(row as int + 1, area as int,
                        area as int);
                    vstd::arithmetic::mul::lemma_mul_is_distributive_add_other_way(
                        area as int,
                        row as int,
                        1,
                    );
                    vstd::arithmetic::mul::lemma_mul_nonnegative(row as int, area as int);
                }
                let entry = dispersal[row * area + col];
                let entry_bits = entry.get();
                proof {
                    use_type_invariant(entry);
                }
                if entry_bits >= INFINITY_BITS {
                    return Err(InMemoryDispersalSamplerError::InconsistentDispersalProbabilities);
                }
                let capacity = habitat.habitat[col];
                if entry_bits != 0 && capacity == 0 {
                    return Err(InMemoryDispersalSamplerError::InconsistentDispersalProbabilities);
                }
                proof {
                    let eb = entry_bits;
                    assert(eb >> 63u64 == 0u64 && eb < 0x7ff0_0000_0000_0000u64 ==> !((eb
                        >> 52u64) & 0x7ffu64 == 0x7ffu64)) by (bit_vector);
                    // this entry's column is its index modulo the area
                    vstd::arithmetic::div_mod::lemma_mod_multiples_vanish(
                        row as int,
                        col as int,
                        area as int,
                    );
                    vstd::arithmetic::div_mod::lemma_small_mod(col as nat, area as nat);
                    vstd::arithmetic::mul::lemma_mul_is_commutative(row as int, area as int);
                }
                let weight = M::mul_nonneg(entry_bits, compose_f64_from_u64(capacity as u64));
                if weight != 0 {
                    cols.push(col);
                    weights.push(weight);
                }
                acc = M::add_nonneg(acc, weight);
                col = col + 1;
            }
            let row_sum = acc;
            if habitat.habitat[row] > 0 && row_sum == 0 {
                return Err(InMemoryDispersalSamplerError::InconsistentDispersalProbabilities);
            }
            if row_sum >= INFINITY_BITS {
                return Err(InMemoryDispersalSamplerError::InconsistentDispersalProbabilities);
            }
            let range_start = buffer.len();
            if cols.len() > 0 {
                proof {
                    let rs = row_sum;
                    assert(rs != 0u64 && rs >> 63u64 == 0u64 && rs < 0x7ff0_0000_0000_0000u64
                        ==> !((rs >> 52u64) & 0x7ffu64 == 0x7ffu64)) by (bit_vector);
                }
                // scale every kept weight to the average: p = w * n / total
                let count_bits = compose_f64_from_u64(cols.len() as u64);
                proof {
                    assert(count_bits >= ONE_BITS);
                }
                let mut small: Vec<(usize, u64)> = Vec::new();
                let mut large: Vec<(usize, u64)> = Vec::new();
                let mut i: usize = 0;
                while i < cols.len()
                    invariant
                        habitat.well_formed(),
                        area == habitat.habitat@.len(),
                        i <= cols@.len(),
                        cols@.len() == weights@.len(),
                        is_nonnegative_bits(row_sum),
                        row_sum != 0u64,
                        is_finite_bits(row_sum),
                        is_nonnegative_bits(count_bits),
                        is_finite_bits(count_bits),
                        count_bits >= ONE_BITS,
                        forall|k: int|
                            0 <= k < cols@.len() ==> (#[trigger] cols@[k]) < area
                                && habitat.habitat@[cols@[k] as int] > 0,
                        forall|k: int|
                            0 <= k < weights@.len() ==> is_nonnegative_bits(
                                #[trigger] weights@[k],
                            ),
                        small@.len() + large@.len() == i,
                        forall|k: int|
                            0 <= k < small@.len() ==> {
                                let s = #[trigger] small@[k];
                                &&& s.0 < area
                                &&& habitat.habitat@[s.0 as int] > 0
                                &&& is_nonnegative_bits(s.1)
                                &&& s.1 < ONE_BITS
                            },
                        forall|k: int|
                            0 <= k < large@.len() ==> {
                                let l = #[trigger] large@[k];
                                &&& l.0 < area
                                &&& habitat.habitat@[l.0 as int] > 0
                                &&& is_nonnegative_bits(l.1)
                                &&& l.1 >= ONE_BITS
                            },
                    decreases cols@.len() - i,
                {
                    let scaled = M::div_nonneg(
                        M::mul_nonneg(weights[i], count_bits),
                        row_sum,
                    );
                    if scaled < ONE_BITS {
                        small.push((cols[i], scaled));
                    } else {
                        large.push((cols[i], scaled));
                    }
                    i = i + 1;
                }
                // Vose's pairing: each round retires one underfull column
                // against one overfull one
                while small.len() > 0 && large.len() > 0
                    invariant
                        habitat.well_formed(),
                        area == habitat.habitat@.len(),
                        forall|k: int|
                            0 <= k < small@.len() ==> {
                                let s = #[trigger] small@[k];
                                &&& s.0 < area
                                &&& habitat.habitat@[s.0 as int] > 0
                                &&& is_nonnegative_bits(s.1)
                                &&& s.1 < ONE_BITS
                            },
                        forall|k: int|
                            0 <= k < large@.len() ==> {
                                let l = #[trigger] large@[k];
                                &&& l.0 < area
                                &&& habitat.habitat@[l.0 as int] > 0
                                &&& is_nonnegative_bits(l.1)
                                &&& l.1 >= ONE_BITS
                            },
                        buffer@.len() + small@.len() + large@.len() == range_start + cols@.len(),
                        range_start <= buffer@.len(),
                        forall|j: int|
                            0 <= j < buffer@.len() ==> {
                                let atom = #[trigger] buffer@[j];
                                &&& atom.e < area
                                &&& habitat.habitat@[atom.e as int] > 0
                                &&& atom.k < area
                                &&& habitat.habitat@[atom.k as int] > 0
                            },
                    decreases small@.len() + large@.len(),
                {
                    let (small_col, small_p) = match small.pop() {
                        Some(entry) => entry,
                        None => (0, 0),  // unreachable: the loop guard holds a small entry
                    };
                    let (large_col, large_p) = match large.pop() {
                        Some(entry) => entry,
                        None => (0, 0),  // unreachable: the loop guard holds a large entry
                    };
                    proof {
                        assert(ONE_BITS >> 63u64 == 0u64 && (ONE_BITS >> 52u64) & 0x7ffu64
                            == 1023u64) by (bit_vector);
                    }
                    buffer.push(
                        AliasMethodSamplerAtom {
                            u: ClosedUnitF64::new_unchecked(small_p),
                            e: small_col,
                            k: large_col,
                        },
                    );
                    // the overfull column keeps its residue above the average
                    let lifted = M::add_nonneg(large_p, small_p);
                    if lifted >= INFINITY_BITS {
                        large.push((large_col, lifted));
                    } else {
                        proof {
                            let lf = lifted;
                            assert(lf >> 63u64 == 0u64 && lf < 0x7ff0_0000_0000_0000u64 ==> !((
                            lf >> 52u64) & 0x7ffu64 == 0x7ffu64)) by (bit_vector);
                        }
                        let residue = M::sub_nonneg(lifted, ONE_BITS);
                        if residue < ONE_BITS {
                            small.push((large_col, residue));
                        } else {
                            large.push((large_col, residue));
                        }
                    }
                }
                // numerical residue: the leftovers fill their own buckets
                while large.len() > 0
                    invariant
                        habitat.well_formed(),
                        area == habitat.habitat@.len(),
                        forall|k: int|
                            0 <= k < large@.len() ==> {
                                let l = #[trigger] large@[k];
                                &&& l.0 < area
                                &&& habitat.habitat@[l.0 as int] > 0
                            },
                        buffer@.len() + small@.len() + large@.len() == range_start + cols@.len(),
                        range_start <= buffer@.len(),
                        forall|j: int|
                            0 <= j < buffer@.len() ==> {
                                let atom = #[trigger] buffer@[j];
                                &&& atom.e < area
                                &&& habitat.habitat@[atom.e as int] > 0
                                &&& atom.k < area
                                &&& habitat.habitat@[atom.k as int] > 0
                            },
                        forall|k: int|
                            0 <= k < small@.len() ==> {
                                let s = #[trigger] small@[k];
                                &&& s.0 < area
                                &&& habitat.habitat@[s.0 as int] > 0
                            },
                    decreases large@.len(),
                {
                    let (large_col, _) = match large.pop() {
                        Some(entry) => entry,
                        None => (0, 0),  // unreachable: the loop guard holds an entry
                    };
                    buffer.push(
                        AliasMethodSamplerAtom { u: ClosedUnitF64::one(), e: large_col, k: large_col },
                    );
                }
                while small.len() > 0
                    invariant
                        habitat.well_formed(),
                        area == habitat.habitat@.len(),
                        buffer@.len() + small@.len() == range_start + cols@.len(),
                        range_start <= buffer@.len(),
                        forall|j: int|
                            0 <= j < buffer@.len() ==> {
                                let atom = #[trigger] buffer@[j];
                                &&& atom.e < area
                                &&& habitat.habitat@[atom.e as int] > 0
                                &&& atom.k < area
                                &&& habitat.habitat@[atom.k as int] > 0
                            },
                        forall|k: int|
                            0 <= k < small@.len() ==> {
                                let s = #[trigger] small@[k];
                                &&& s.0 < area
                                &&& habitat.habitat@[s.0 as int] > 0
                            },
                    decreases small@.len(),
                {
                    let (small_col, _) = match small.pop() {
                        Some(entry) => entry,
                        None => (0, 0),  // unreachable: the loop guard holds an entry
                    };
                    buffer.push(
                        AliasMethodSamplerAtom { u: ClosedUnitF64::one(), e: small_col, k: small_col },
                    );
                }
            }
            ranges.push(AliasSamplerRange::new(range_start, buffer.len()));
            row = row + 1;
        }
        Ok(InMemoryPackedAliasDispersalSampler {
            alias_dispersal_ranges: ranges,
            alias_dispersal_buffer: buffer,
        })
    }

    /// Samples a dispersal target for a habitable origin in constant
    /// time: one uniform bucket pick and one threshold test. Whatever
    /// the draw, the result is a column of one of the origin row's own
    /// buckets — and so always habitable.
    pub fn sample_dispersal_from_location<G: RngCore>(
        &self,
        location: &Location,
        habitat: &InMemoryHabitat,
        rng: &mut G,
    ) -> (r: Location)
        requires
            habitat.well_formed(),
            self.well_formed(habitat),
            habitat.spec_contains(*location),
            habitat.spec_habitat_at(*location) > 0,
        ensures
            habitat.spec_contains(r),
            habitat.spec_habitat_at(r) > 0,
            exists|j: int|
                #![trigger self.alias_dispersal_buffer@[j]]
                {
                    let range = self.alias_dispersal_ranges@[crate::habitat::spec_cell_index(
                        *location,
                        habitat.width,
                    )];
                    &&& range.start <= j < range.end
                    &&& (self.alias_dispersal_buffer@[j].e as int
                        == crate::habitat::spec_cell_index(r, habitat.width)
                        || self.alias_dispersal_buffer@[j].k as int
                        == crate::habitat::spec_cell_index(r, habitat.width))
                },
    {
        let area = habitat.habitat.len();
        proof {
            crate::habitat::lemma_cell_index_in_range(*location, habitat.width, habitat.height);
            crate::habitat::lemma_u32_product_fits_u64(location.y as u64, habitat.width as u64);
        }
        let cell = ((location.y as u64) * (habitat.width as u64) + (location.x as u64)) as usize;
        let range = self.alias_dispersal_ranges[cell];
        let bucket = sample_index(rng, range.end - range.start);
        let atom = self.alias_dispersal_buffer[range.start + bucket];
        let quantile = crate::float_bits::compose_unit_from_u53(sample_u53(rng));
        let target_col = if quantile < atom.u.get() {
            atom.e
        } else {
            atom.k
        };
        proof {
            crate::dispersal::lemma_column_roundtrip(target_col as int, habitat.width,
                habitat.height);
            assert(self.alias_dispersal_buffer@[(range.start + bucket) as int].e == atom.e
                && self.alias_dispersal_buffer@[(range.start + bucket) as int].k == atom.k);
        }
        Location {
            x: (target_col as u64 % (habitat.width as u64)) as u32,
            y: (target_col as u64 / (habitat.width as u64)) as u32,
        }
    }
}

} // verus!
