//! The fixed landscape: per-cell capacities and the injective numbering
//! of habitable slots.
//!
//! [`InMemoryHabitat`] keeps a row-major capacity grid together with its
//! running prefix sums, so that every habitable `(cell, index)` slot
//! maps to a unique number below the total habitat — the key used to
//! prime per-lineage random streams — and so that any number below the
//! total maps back to its slot. [`lemma_map_indexed_location_injective`]
//! proves the injectivity the priming scheme relies on.

use vstd::prelude::*;

verus! {

use crate::bond::OffByOneU64;
use crate::landscape::IndexedLocation;
use crate::landscape::LandscapeExtent;
use crate::landscape::Location;
use crate::rng::RngCore;

/// A landscape with one capacity entry per cell, in row-major order,
/// and the prefix sums of those capacities.
#[derive(PartialEq, Eq, Debug)]
pub struct InMemoryHabitat {
    pub habitat: Vec<u32>,
    pub width: u32,
    pub height: u32,
    pub cumulative: Vec<u64>,
}

/// The row-major cell number of `location` on a grid `width` wide.
pub open spec fn spec_cell_index(location: Location, width: u32) -> int {
    location.y * width + location.x
}

impl InMemoryHabitat {
    /// One capacity per cell, prefix sums starting at zero and closing
    /// with a positive total.
    pub open spec fn well_formed(&self) -> bool {
        &&& self.habitat@.len() == self.width * self.height
        &&& self.cumulative@.len() == self.habitat@.len() + 1
        &&& self.cumulative@[0] == 0u64
        &&& forall|i: int|
            0 <= i < self.habitat@.len() ==> #[trigger] self.cumulative@[i + 1]
                == self.cumulative@[i] + self.habitat@[i]
        &&& self.cumulative@[self.habitat@.len() as int] >= 1u64
        &&& self.width >= 1
        &&& self.height >= 1
    }

    /// The total habitat: the closing prefix sum.
    pub open spec fn spec_total_habitat(&self) -> u64 {
        self.cumulative@[self.habitat@.len() as int]
    }

    /// Whether `location` lies on the grid.
    pub open spec fn spec_contains(&self, location: Location) -> bool {
        location.x < self.width && location.y < self.height
    }

    /// The capacity of `location`.
    pub open spec fn spec_habitat_at(&self, location: Location) -> u32
        recommends
            self.well_formed(),
            self.spec_contains(location),
    {
        self.habitat@[spec_cell_index(location, self.width)]
    }

    /// Whether `indexed_location` names a slot that exists: its cell is
    /// on the grid and its index is below the cell's capacity.
    pub open spec fn spec_is_indexed_location_habitable(
        &self,
        indexed_location: IndexedLocation,
    ) -> bool
        recommends
            self.well_formed(),
    {
        &&& self.spec_contains(indexed_location.location)
        &&& indexed_location.index < self.spec_habitat_at(indexed_location.location)
    }

    /// The unique number of a habitable slot: the prefix sum of its
    /// cell plus its index.
    pub open spec fn spec_map_indexed_location(&self, indexed_location: IndexedLocation) -> int
        recommends
            self.well_formed(),
            self.spec_is_indexed_location_habitable(indexed_location),
    {
        self.cumulative@[spec_cell_index(indexed_location.location, self.width)]
            + indexed_location.index
    }

    /// Builds the habitat from a row-major capacity grid. It succeeds
    /// exactly when the dimensions are positive and match the grid, the
    /// total habitat fits 64 bits, and at least one cell is habitable.
    pub fn try_new(habitat: Vec<u32>, width: u32, height: u32) -> (r: Option<Self>)
        ensures
            match r {
                Some(h) => {
                    &&& h.well_formed()
                    &&& h.habitat@ == habitat@
                    &&& h.width == width
                    &&& h.height == height
                },
                None => {
                    ||| width == 0
                    ||| height == 0
                    ||| width * height > usize::MAX
                    ||| habitat@.len() != width * height
                    ||| spec_capacity_sum(habitat@, habitat@.len() as int) == 0
                    ||| spec_capacity_sum(habitat@, habitat@.len() as int) > u64::MAX
                },
            },
            r is Some <==> (width >= 1 && height >= 1 && width * height <= usize::MAX
                && habitat@.len() == width * height && 1 <= spec_capacity_sum(
                habitat@,
                habitat@.len() as int,
            ) <= u64::MAX),
    {
        if width == 0 || height == 0 {
            return None;
        }
        proof {
            lemma_u32_product_fits_u64(width as u64, height as u64);
        }
        let area_wide: u64 = (width as u64) * (height as u64);
        if area_wide > usize::MAX as u64 || habitat.len() as u64 != area_wide {
            return None;
        }
        let mut cumulative: Vec<u64> = Vec::new();
        cumulative.push(0);
        let mut i: usize = 0;
        let mut acc: u64 = 0;
        while i < habitat.len()
            invariant
                i <= habitat.len(),
                cumulative@.len() == i + 1,
                cumulative@[0] == 0u64,
                forall|j: int|
                    0 <= j < i ==> #[trigger] cumulative@[j + 1] == cumulative@[j] + habitat@[j],
                acc == cumulative@[i as int],
                acc as int == spec_capacity_sum(habitat@, i as int),
            decreases habitat.len() - i,
        {
            let step = habitat[i] as u64;
            if acc > u64::MAX - step {
                proof {
                    lemma_capacity_sum_monotone(habitat@, i as int + 1, habitat@.len() as int);
                }
                return None;
            }
            acc = acc + step;
            cumulative.push(acc);
            i = i + 1;
        }
        if acc == 0 {
            return None;
        }
        Some(InMemoryHabitat { habitat, width, height, cumulative })
    }

    /// The extent of the grid, anchored at the origin.
    pub fn get_extent(&self) -> (r: LandscapeExtent)
        ensures
            r == (LandscapeExtent { x: 0u32, y: 0u32, width: self.width, height: self.height }),
    {
        LandscapeExtent { x: 0, y: 0, width: self.width, height: self.height }
    }

    /// The capacity of `location`.
    pub fn get_habitat_at_location(&self, location: &Location) -> (r: u32)
        requires
            self.well_formed(),
            self.spec_contains(*location),
        ensures
            r == self.spec_habitat_at(*location),
    {
        proof {
            lemma_cell_index_in_range(*location, self.width, self.height);
            lemma_u32_product_fits_u64(location.y as u64, self.width as u64);
        }
        // fixing the grid length in scope bounds the index cast below
        let grid_cells = self.habitat.len();
        let cell = (location.y as u64) * (self.width as u64) + (location.x as u64);
        self.habitat[cell as usize]
    }

    /// Whether `location` is on the grid and can hold at least one
    /// individual.
    pub fn is_location_habitable(&self, location: &Location) -> (r: bool)
        requires
            self.well_formed(),
        ensures
            r == (self.spec_contains(*location) && self.spec_habitat_at(*location) > 0),
    {
        if location.x < self.width && location.y < self.height {
            self.get_habitat_at_location(location) > 0
        } else {
            false
        }
    }

    /// Whether `indexed_location` names an existing slot.
    pub fn is_indexed_location_habitable(&self, indexed_location: &IndexedLocation) -> (r: bool)
        requires
            self.well_formed(),
        ensures
            r == self.spec_is_indexed_location_habitable(*indexed_location),
    {
        if indexed_location.location.x < self.width && indexed_location.location.y < self.height {
            indexed_location.index < self.get_habitat_at_location(&indexed_location.location)
        } else {
            false
        }
    }

    /// The total habitat across all cells.
    pub fn get_total_habitat(&self) -> (r: OffByOneU64)
        requires
            self.well_formed(),
        ensures
            r@ == self.spec_total_habitat() as u128,
    {
        let total = self.cumulative[self.cumulative.len() - 1];
        match OffByOneU64::new(total as u128) {
            Ok(v) => v,
            Err(_) => OffByOneU64::one(),  // the total is at least one, so this arm cannot run
        }
    }

    /// The unique number of a habitable slot, used to key per-lineage
    /// random streams.
    pub fn map_indexed_location_to_u64_injective(
        &self,
        indexed_location: &IndexedLocation,
    ) -> (r: u64)
        requires
            self.well_formed(),
            self.spec_is_indexed_location_habitable(*indexed_location),
        ensures
            r == self.spec_map_indexed_location(*indexed_location),
            r < self.spec_total_habitat(),
    {
        proof {
            lemma_cell_index_in_range(indexed_location.location, self.width, self.height);
            lemma_cumulative_monotone(
                self,
                spec_cell_index(indexed_location.location, self.width) + 1,
                self.habitat@.len() as int + 1,
            );
            let ci = spec_cell_index(indexed_location.location, self.width);
            assert(self.cumulative@[ci + 1] == self.cumulative@[ci] + self.habitat@[ci]);
            assert(self.cumulative@[ci + 1] <= self.cumulative@[self.habitat@.len() as int]);
        }
        proof {
            lemma_u32_product_fits_u64(indexed_location.location.y as u64, self.width as u64);
        }
        // fixing the table length in scope bounds the index cast below
        let table_cells = self.cumulative.len();
        let cell = (indexed_location.location.y as u64) * (self.width as u64) + (
        indexed_location.location.x as u64);
        self.cumulative[cell as usize] + (indexed_location.index as u64)
    }

    /// Inverts the slot numbering: the habitable slot whose number is
    /// `index`, found by binary search over the prefix sums.
    pub fn index_to_indexed_location(&self, index: u64) -> (r: IndexedLocation)
        requires
            self.well_formed(),
            index < self.spec_total_habitat(),
        ensures
            self.spec_is_indexed_location_habitable(r),
            self.spec_map_indexed_location(r) == index,
    {
        let mut lo: usize = 0;
        let mut hi: usize = self.habitat.len();
        proof {
            lemma_cumulative_monotone(self, 0, self.habitat@.len() as int);
        }
        while hi - lo > 1
            invariant
                self.well_formed(),
                lo < hi <= self.habitat@.len(),
                self.cumulative@[lo as int] <= index,
                index < self.cumulative@[hi as int],
            decreases hi - lo,
        {
            let mid = lo + (hi - lo) / 2;
            if self.cumulative[mid] <= index {
                lo = mid;
            } else {
                hi = mid;
            }
        }
        // index falls inside cell `lo`
        let offset = index - self.cumulative[lo];
        proof {
            assert(self.cumulative@[lo + 1] == self.cumulative@[lo as int] + self.habitat@[
                lo as int]);
            lemma_cell_index_roundtrip(lo as int, self.width, self.height);
        }
        let x = (lo % (self.width as usize)) as u32;
        let y = (lo / (self.width as usize)) as u32;
        IndexedLocation { location: Location { x, y }, index: offset as u32 }
    }
}

/// The product of two 32-bit quantities fits in 64 bits.
pub proof fn lemma_u32_product_fits_u64(a: u64, b: u64)
    by (nonlinear_arith)
    requires
        a <= 0xffff_ffffu64,
        b <= 0xffff_ffffu64,
    ensures
        a * b <= 0xffff_ffffu64 * 0xffff_ffffu64,
        a * b <= u64::MAX,
{
}

/// A cell index computed from an on-grid location stays inside the grid
/// area.
pub proof fn lemma_cell_index_in_range(location: Location, width: u32, height: u32)
    requires
        location.x < width,
        location.y < height,
    ensures
        0 <= spec_cell_index(location, width) < width * height,
        location.y * width + location.x == spec_cell_index(location, width),
{
    vstd::arithmetic::mul::lemma_mul_nonnegative(location.y as int, width as int);
    vstd::arithmetic::mul::lemma_mul_inequality(location.y as int + 1, height as int, width as int);
    vstd::arithmetic::mul::lemma_mul_is_distributive_add_other_way(
        width as int,
        location.y as int,
        1,
    );
    vstd::arithmetic::mul::lemma_mul_is_commutative(location.y as int + 1, width as int);
    vstd::arithmetic::mul::lemma_mul_is_commutative(height as int, width as int);
}

/// Splitting a cell index by division and remainder recovers an on-grid
/// location.
proof fn lemma_cell_index_roundtrip(cell: int, width: u32, height: u32)
    requires
        width >= 1,
        0 <= cell < width * height,
    ensures
        0 <= cell % (width as int) < width,
        0 <= cell / (width as int) < height,
        spec_cell_index(
            Location { x: (cell % (width as int)) as u32, y: (cell / (width as int)) as u32 },
            width,
        ) == cell,
{
    vstd::arithmetic::div_mod::lemma_fundamental_div_mod(cell, width as int);
    vstd::arithmetic::div_mod::lemma_mod_bound(cell, width as int);
    vstd::arithmetic::div_mod::lemma_div_pos_is_pos(cell, width as int);
    vstd::arithmetic::mul::lemma_mul_is_commutative(width as int, height as int);
    vstd::arithmetic::div_mod::lemma_multiply_divide_lt(cell, width as int, height as int);
    vstd::arithmetic::mul::lemma_mul_is_commutative(cell / (width as int), width as int);
}

/// The sum of the capacities of the first `n` cells.
pub open spec fn spec_capacity_sum(habitat: Seq<u32>, n: int) -> int
    decreases n,
{
    if n <= 0 {
        0
    } else {
        spec_capacity_sum(habitat, n - 1) + habitat[n - 1]
    }
}

/// Capacity sums grow with the number of cells counted.
pub proof fn lemma_capacity_sum_monotone(habitat: Seq<u32>, m: int, n: int)
    requires
        0 <= m <= n <= habitat.len(),
    ensures
        spec_capacity_sum(habitat, m) <= spec_capacity_sum(habitat, n),
    decreases n - m,
{
    if m < n {
        lemma_capacity_sum_monotone(habitat, m, n - 1);
    }
}

/// The landscape invariant on totals: the total habitat is exactly the
/// sum of all per-cell capacities.
pub proof fn lemma_total_habitat_is_capacity_sum(h: &InMemoryHabitat)
    requires
        h.well_formed(),
    ensures
        h.spec_total_habitat() as int == spec_capacity_sum(h.habitat@, h.habitat@.len() as int),
{
    lemma_cumulative_is_capacity_sum(h, h.habitat@.len() as int);
}

/// Each prefix sum equals the capacity sum of the cells before it.
proof fn lemma_cumulative_is_capacity_sum(h: &InMemoryHabitat, n: int)
    requires
        h.well_formed(),
        0 <= n <= h.habitat@.len(),
    ensures
        h.cumulative@[n] as int == spec_capacity_sum(h.habitat@, n),
    decreases n,
{
    if n > 0 {
        lemma_cumulative_is_capacity_sum(h, n - 1);
        assert(h.cumulative@[(n - 1) + 1] == h.cumulative@[n - 1] + h.habitat@[n - 1]);
    }
}

/// Prefix sums never decrease between two positions.
pub proof fn lemma_cumulative_monotone(h: &InMemoryHabitat, from: int, to: int)
    requires
        h.well_formed(),
        0 <= from <= to <= h.habitat@.len() + 1,
        to <= h.cumulative@.len(),
    ensures
        forall|a: int, b: int|
            from <= a <= b < to ==> #[trigger] h.cumulative@[a] <= #[trigger] h.cumulative@[b],
    decreases to - from,
{
    if from < to {
        lemma_cumulative_monotone(h, from + 1, to);
        assert forall|b: int| from <= b < to implies h.cumulative@[from] <= h.cumulative@[b] by {
            lemma_cumulative_le(h, from, b);
        }
    }
}

/// One prefix sum is bounded by any later one.
proof fn lemma_cumulative_le(h: &InMemoryHabitat, a: int, b: int)
    requires
        h.well_formed(),
        0 <= a <= b < h.cumulative@.len(),
    ensures
        h.cumulative@[a] <= h.cumulative@[b],
    decreases b - a,
{
    if a < b {
        lemma_cumulative_le(h, a + 1, b);
    }
}

/// The slot numbering is injective over habitable slots: equal numbers
/// force equal slots.
pub proof fn lemma_map_indexed_location_injective(
    h: &InMemoryHabitat,
    a: IndexedLocation,
    b: IndexedLocation,
)
    requires
        h.well_formed(),
        h.spec_is_indexed_location_habitable(a),
        h.spec_is_indexed_location_habitable(b),
        h.spec_map_indexed_location(a) == h.spec_map_indexed_location(b),
    ensures
        a == b,
{
    let ca = spec_cell_index(a.location, h.width);
    let cb = spec_cell_index(b.location, h.width);
    lemma_cell_index_in_range(a.location, h.width, h.height);
    lemma_cell_index_in_range(b.location, h.width, h.height);
    if ca < cb {
        lemma_cumulative_le(h, ca + 1, cb);
    } else if cb < ca {
        lemma_cumulative_le(h, cb + 1, ca);
    } else {
        lemma_cell_split_unique(a.location, b.location, h.width);
    }
}

/// Two on-grid locations with one cell index are the same location.
proof fn lemma_cell_split_unique(a: Location, b: Location, width: u32)
    requires
        width >= 1,
        a.x < width,
        b.x < width,
        spec_cell_index(a, width) == spec_cell_index(b, width),
    ensures
        a == b,
{
    vstd::arithmetic::div_mod::lemma_fundamental_div_mod_converse(
        spec_cell_index(a, width),
        width as int,
        a.y as int,
        a.x as int,
    );
    vstd::arithmetic::div_mod::lemma_fundamental_div_mod_converse(
        spec_cell_index(b, width),
        width as int,
        b.y as int,
        b.x as int,
    );
}

/// A landscape that can hand out one of its habitable slots uniformly
/// at random.
pub trait UniformlySampleableHabitat<G: RngCore> {
    /// The validity a sampling call relies on.
    spec fn spec_valid(&self) -> bool;

    /// Whether the handed-out slot exists on this landscape.
    spec fn spec_slot_habitable(&self, indexed_location: IndexedLocation) -> bool;

    /// One habitable slot, drawn uniformly across all capacity.
    fn sample_habitable_indexed_location(&self, rng: &mut G) -> (r: IndexedLocation)
        requires
            self.spec_valid(),
        ensures
            self.spec_slot_habitable(r),
    ;
}

impl<G: RngCore> UniformlySampleableHabitat<G> for InMemoryHabitat {
    open spec fn spec_valid(&self) -> bool {
        self.well_formed()
    }

    open spec fn spec_slot_habitable(&self, indexed_location: IndexedLocation) -> bool {
        self.spec_is_indexed_location_habitable(indexed_location)
    }

    /// Draws a slot number below the total habitat uniformly and
    /// inverts the slot numbering.
    fn sample_habitable_indexed_location(&self, rng: &mut G) -> (r: IndexedLocation)
        ensures
            self.spec_is_indexed_location_habitable(r),
    {
        let total = self.cumulative[self.cumulative.len() - 1];
        let x = rng.sample_u64();
        proof {
            crate::rng::lemma_u64_product_fits_u128(x as u128, total as u128);
        }
        let wide: u128 = (x as u128) * (total as u128);
        let index: u128 = wide >> 64u128;
        proof {
            vstd::bits::lemma_u128_shr_is_div(wide, 64u128);
            assert(vstd::arithmetic::power2::pow2(64) == 0x1_0000_0000_0000_0000) by {
                vstd::arithmetic::power2::lemma2_to64_rest();
            }
            vstd::arithmetic::mul::lemma_mul_strict_inequality(
                x as int,
                0x1_0000_0000_0000_0000,
                total as int,
            );
            vstd::arithmetic::div_mod::lemma_multiply_divide_lt(
                wide as int,
                0x1_0000_0000_0000_0000,
                total as int,
            );
        }
        self.index_to_indexed_location(index as u64)
    }
}

} // verus!
