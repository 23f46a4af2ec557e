//! The dynamic weighted sampler behind the Gillespie scheduler.
//!
//! Every positive weight `w` is decomposed into a 53-bit mantissa `m` and
//! a binary exponent `g` with `w = (m / 2^52) * 2^g`. Weights of one
//! exponent live together in a [`RejectionSamplingGroup`], where their
//! mantissas are of comparable magnitude, so rejection sampling accepts
//! in O(1) expected rounds. The groups form a stack ordered by strictly
//! decreasing exponent; the running `total_weight` is the exact integer
//! sum of all mantissas scaled to the smallest exponent present, so no
//! floating-point drift can accumulate under insert/remove churn.

use vstd::prelude::*;

verus! {

use vstd::arithmetic::power2::pow2;
use vstd::arithmetic::power2::lemma_pow2_adds;
use vstd::arithmetic::power2::lemma_pow2_pos;
use vstd::arithmetic::power2::lemma_pow2_strictly_increases;
use vstd::arithmetic::power2::lemma2_to64;
use vstd::arithmetic::power2::lemma2_to64_rest;
use vstd::multiset::Multiset;

use crate::bond::PositiveF64;
use crate::float_bits::IMPLICIT_BIT;
use crate::float_bits::FRACTION_MASK;
use crate::float_bits::is_finite_bits;
use crate::float_bits::is_positive_bits;
use crate::float_bits::scaled_value;
use crate::float_bits::spec_biased_exponent;
use crate::float_bits::spec_fraction;
use crate::rng::RngCore;
use crate::rng::sample_index;
use crate::rng::sample_u53;

/// One more than the largest 53-bit mantissa, `2^53`.
pub const MANTISSA_LIMIT: u64 = 0x0020_0000_0000_0000;

/// How many rejection rounds a single draw may take before the sampler
/// falls back to the heaviest atom of the group. A round rejects with
/// probability at most 1/2 whenever the group holds no subnormal
/// mantissa, so the fallback is unreachable in practice; it only serves
/// to bound the loop.
pub const REJECTION_ROUNDS: u64 = 1024;

/// The binary exponent `decompose_weight` assigns to a pattern: the
/// unbiased exponent for normals, the minimum exponent for subnormals.
pub open spec fn spec_decomposed_exponent(bits: u64) -> int {
    if spec_biased_exponent(bits) == 0u64 {
        -1022
    } else {
        spec_biased_exponent(bits) - 1023
    }
}

/// The 53-bit mantissa `decompose_weight` assigns to a pattern: the
/// fraction with the implicit bit restored for normals, the bare
/// fraction for subnormals.
pub open spec fn spec_decomposed_mantissa(bits: u64) -> int {
    if spec_biased_exponent(bits) == 0u64 {
        spec_fraction(bits) as int
    } else {
        spec_fraction(bits) + IMPLICIT_BIT
    }
}

/// A positive weight split into `(exponent, mantissa)` with
/// `weight = (mantissa / 2^52) * 2^exponent`.
#[derive(Clone, Copy, PartialEq, Eq, Structural, Debug)]
pub struct DecomposedWeight {
    pub exponent: i16,
    pub mantissa: u64,
}

/// Splits a positive finite weight into its binary exponent and 53-bit
/// mantissa. Subnormal weights flow through like any other weight, with
/// no implicit leading bit.
pub fn decompose_weight(weight: PositiveF64) -> (r: DecomposedWeight)
    requires
        is_finite_bits(weight@),
    ensures
        r.exponent as int == spec_decomposed_exponent(weight@),
        r.mantissa as int == spec_decomposed_mantissa(weight@),
        1 <= r.mantissa < MANTISSA_LIMIT,
        -1022 <= r.exponent <= 1023,
        scaled_value(weight@) == r.mantissa * pow2((r.exponent + 1022) as nat),
{
    let bits = weight.get();
    proof {
        use_type_invariant(weight);
        crate::float_bits::lemma_nonnegative_bits_split(bits);
        lemma_pow2_pos((spec_decomposed_exponent(bits) + 1022) as nat);
        lemma2_to64();
    }
    let biased = ((bits >> 52u64) & 0x7ffu64) as u16;
    if biased == 0 {
        let mantissa = bits & FRACTION_MASK;
        proof {
            assert(bits != 0 && bits >> 63u64 == 0u64 && (bits >> 52u64) & 0x7ffu64 == 0u64
                ==> bits & 0x000f_ffff_ffff_ffffu64 != 0u64) by (bit_vector);
        }
        DecomposedWeight { exponent: -1022, mantissa }
    } else {
        let mantissa = (bits & FRACTION_MASK) | IMPLICIT_BIT;
        proof {
            assert((bits & 0x000f_ffff_ffff_ffffu64) | 0x0010_0000_0000_0000u64 == (bits
                & 0x000f_ffff_ffff_ffffu64) + 0x0010_0000_0000_0000u64) by (bit_vector);
        }
        DecomposedWeight { exponent: (biased as i16) - 1023, mantissa }
    }
}

/// The exact integer sum of a sequence of mantissas.
pub open spec fn sum_of_weights(ws: Seq<u64>) -> int
    decreases ws.len(),
{
    if ws.len() == 0 {
        0
    } else {
        sum_of_weights(ws.drop_last()) + ws.last()
    }
}

/// Bounds the sum of a sequence of 53-bit mantissas by its length.
pub proof fn lemma_sum_of_weights_bounds(ws: Seq<u64>)
    requires
        forall|i: int| 0 <= i < ws.len() ==> 1 <= #[trigger] ws[i] < MANTISSA_LIMIT,
    ensures
        ws.len() <= sum_of_weights(ws) <= ws.len() * (MANTISSA_LIMIT - 1),
    decreases ws.len(),
{
    if ws.len() > 0 {
        lemma_sum_of_weights_bounds(ws.drop_last());
    }
}

/// A sum of mantissas is non-negative.
pub proof fn lemma_sum_of_weights_nonnegative(ws: Seq<u64>)
    ensures
        sum_of_weights(ws) >= 0,
    decreases ws.len(),
{
    if ws.len() > 0 {
        lemma_sum_of_weights_nonnegative(ws.drop_last());
    }
}

/// Every mantissa is bounded by the sum it contributes to.
pub proof fn lemma_sum_of_weights_element_bound(ws: Seq<u64>, i: int)
    requires
        0 <= i < ws.len(),
    ensures
        ws[i] <= sum_of_weights(ws),
    decreases ws.len(),
{
    if i == ws.len() - 1 {
        lemma_sum_of_weights_nonnegative(ws.drop_last());
    } else {
        lemma_sum_of_weights_element_bound(ws.drop_last(), i);
    }
}

/// Replacing one mantissa adjusts the sum by the difference.
pub proof fn lemma_sum_of_weights_update(ws: Seq<u64>, i: int, v: u64)
    requires
        0 <= i < ws.len(),
    ensures
        sum_of_weights(ws.update(i, v)) == sum_of_weights(ws) - ws[i] + v,
    decreases ws.len(),
{
    if i == ws.len() - 1 {
        assert(ws.update(i, v).drop_last() =~= ws.drop_last());
    } else {
        assert(ws.update(i, v).drop_last() =~= ws.drop_last().update(i, v));
        lemma_sum_of_weights_update(ws.drop_last(), i, v);
    }
}

/// A group of events whose weights share one binary exponent. The
/// `weights` are the 53-bit mantissas; `total_weight` is their exact sum.
#[derive(PartialEq, Eq, Debug)]
pub struct RejectionSamplingGroup<E> {
    pub events: Vec<E>,
    pub weights: Vec<u64>,
    pub total_weight: u128,
}

impl<E> RejectionSamplingGroup<E> {
    /// One weight per event, every mantissa a 53-bit quantity of at
    /// least one, and the cached total their exact sum.
    pub open spec fn well_formed(&self) -> bool {
        &&& self.events.len() == self.weights.len()
        &&& self.events.len() >= 1
        &&& forall|i: int|
            0 <= i < self.weights.len() ==> 1 <= #[trigger] self.weights@[i] < MANTISSA_LIMIT
        &&& self.total_weight == sum_of_weights(self.weights@)
    }

    /// Creates a group holding one event.
    pub fn new(event: E, weight: u64) -> (r: Self)
        requires
            1 <= weight < MANTISSA_LIMIT,
        ensures
            r.well_formed(),
            r.events@ =~= seq![event],
            r.weights@ =~= seq![weight],
            r.total_weight == weight,
    {
        let mut events = Vec::new();
        let mut weights = Vec::new();
        events.push(event);
        weights.push(weight);
        proof {
            assert(weights@.drop_last() =~= Seq::<u64>::empty());
            assert(sum_of_weights(weights@) == sum_of_weights(Seq::<u64>::empty()) + weight);
            assert(events@ =~= seq![event]);
            assert(weights@ =~= seq![weight]);
        }
        RejectionSamplingGroup { events, weights, total_weight: weight as u128 }
    }

    /// Appends one event with its mantissa.
    pub fn add(&mut self, event: E, weight: u64)
        requires
            old(self).well_formed(),
            1 <= weight < MANTISSA_LIMIT,
        ensures
            final(self).well_formed(),
            final(self).events@ == old(self).events@.push(event),
            final(self).weights@ == old(self).weights@.push(weight),
            final(self).total_weight == old(self).total_weight + weight,
    {
        proof {
            lemma_sum_of_weights_bounds(self.weights@);
            vstd::arithmetic::mul::lemma_mul_inequality(
                self.weights@.len() as int,
                0xffff_ffff_ffff_ffff,
                (MANTISSA_LIMIT - 1) as int,
            );
        }
        self.events.push(event);
        self.weights.push(weight);
        self.total_weight = self.total_weight + weight as u128;
        proof {
            assert(self.weights@.drop_last() =~= old(self).weights@);
        }
    }

    /// The events of the group, in storage order.
    pub fn iter(&self) -> (r: Vec<E>) where E: Copy
        ensures
            r@ =~= self.events@,
    {
        let mut out: Vec<E> = Vec::new();
        let mut i: usize = 0;
        while i < self.events.len()
            invariant
                i <= self.events.len(),
                out@ =~= self.events@.subrange(0, i as int),
            decreases self.events.len() - i,
        {
            out.push(self.events[i]);
            proof {
                assert(out@ =~= self.events@.subrange(0, (i + 1) as int));
            }
            i = i + 1;
        }
        proof {
            assert(self.events@.subrange(0, self.events@.len() as int) =~= self.events@);
        }
        out
    }

    /// Removes the atom at `index` and hands it out, together with the
    /// remaining group if any atoms are left.
    fn pop_at(self, index: usize) -> (r: (Option<Self>, E))
        requires
            self.well_formed(),
            index < self.events.len(),
        ensures
            r.1 == self.events@[index as int],
            match r.0 {
                Some(g) => {
                    &&& self.events@.len() >= 2
                    &&& g.well_formed()
                    &&& g.events@ == self.events@.update(
                        index as int,
                        self.events@.last(),
                    ).drop_last()
                    &&& g.weights@ == self.weights@.update(
                        index as int,
                        self.weights@.last(),
                    ).drop_last()
                    &&& g.total_weight == self.total_weight - self.weights@[index as int]
                },
                None => self.events@.len() == 1 && index == 0,
            },
    {
        let mut this = self;
        proof {
            lemma_sum_of_weights_update(this.weights@, index as int, this.weights@.last());
            lemma_sum_of_weights_element_bound(this.weights@, index as int);
        }
        let event = this.events.swap_remove(index);
        let weight = this.weights.swap_remove(index);
        this.total_weight = this.total_weight - weight as u128;
        if this.events.len() == 0 {
            (None, event)
        } else {
            (Some(this), event)
        }
    }

    /// The storage index of a heaviest atom.
    fn heaviest_index(&self) -> (r: usize)
        requires
            self.well_formed(),
        ensures
            r < self.events.len(),
    {
        let mut best: usize = 0;
        let mut i: usize = 1;
        while i < self.weights.len()
            invariant
                self.well_formed(),
                best < self.weights.len(),
                i <= self.weights.len(),
            decreases self.weights.len() - i,
        {
            if self.weights[i] > self.weights[best] {
                best = i;
            }
            i = i + 1;
        }
        best
    }

    /// Draws one atom with probability proportional to its mantissa, by
    /// rejection against the 53-bit mantissa range, and removes it. After
    /// an (astronomically improbable) run of `REJECTION_ROUNDS` rejected
    /// rounds, a heaviest atom is taken instead, so every draw ends.
    pub fn sample_pop<G: RngCore>(self, rng: &mut G) -> (r: (Option<Self>, E))
        requires
            self.well_formed(),
        ensures
            exists|i: int|
                {
                    &&& 0 <= i < self.events@.len()
                    &&& r.1 == self.events@[i]
                    &&& match r.0 {
                        Some(g) => {
                            &&& self.events@.len() >= 2
                            &&& g.well_formed()
                            &&& g.events@ == self.events@.update(i, self.events@.last(),
                            ).drop_last()
                            &&& g.weights@ == self.weights@.update(i, self.weights@.last(),
                            ).drop_last()
                            &&& g.total_weight == self.total_weight - self.weights@[i]
                        },
                        None => self.events@.len() == 1 && i == 0,
                    }
                },
    {
        let mut rounds: u64 = 0;
        loop
            invariant
                self.well_formed(),
            decreases REJECTION_ROUNDS - rounds,
        {
            if rounds >= REJECTION_ROUNDS {
                let index = self.heaviest_index();
                let ghost i = index as int;
                let r = self.pop_at(index);
                proof {
                    assert(0 <= i < self.events@.len() && r.1 == self.events@[i]);
                }
                return r;
            }
            let index = sample_index(rng, self.events.len());
            let height = sample_u53(rng);
            if height < self.weights[index] {
                let ghost i = index as int;
                let r = self.pop_at(index);
                proof {
                    assert(0 <= i < self.events@.len() && r.1 == self.events@[i]);
                }
                return r;
            }
            rounds = rounds + 1;
        }
    }
}

/// Two to the power `k`, for scaling group totals between exponents.
pub fn pow2_u128(k: u16) -> (r: u128)
    requires
        k < 128,
    ensures
        r == pow2(k as nat),
        r >= 1,
{
    let mut r: u128 = 1;
    let mut i: u16 = 0;
    proof {
        lemma2_to64();
    }
    while i < k
        invariant
            i <= k < 128,
            r == pow2(i as nat),
        decreases k - i,
    {
        proof {
            lemma_pow2_adds(i as nat, 1);
            lemma2_to64();
            if (i + 1) as nat <= 127 {
                lemma_pow2_strictly_increases((i + 1) as nat, 128);
            }
            lemma_pow2_128_value();
        }
        r = r * 2;
        i = i + 1;
    }
    proof {
        lemma_pow2_pos(k as nat);
    }
    r
}

/// The numeric value of `2^128`, one more than `u128::MAX`.
pub proof fn lemma_pow2_128_value()
    ensures
        pow2(128) == 0x1_0000_0000_0000_0000_0000_0000_0000_0000,
{
    lemma_pow2_adds(64, 64);
    lemma2_to64_rest();
}

/// The sum, over the stack entries from `from` on, of each group's total
/// mantissa scaled by two to the distance between its exponent and `min`.
pub open spec fn suffix_total<E>(
    exps: Seq<i16>,
    gs: Seq<RejectionSamplingGroup<E>>,
    min: int,
    from: int,
) -> int
    decreases exps.len() - from,
{
    if from < 0 || from >= exps.len() {
        0
    } else {
        gs[from].total_weight * pow2((exps[from] - min) as nat) + suffix_total(
            exps,
            gs,
            min,
            from + 1,
        )
    }
}

/// All events held by a stack of groups, as a multiset.
pub open spec fn groups_event_multiset<E>(gs: Seq<RejectionSamplingGroup<E>>) -> Multiset<E>
    decreases gs.len(),
{
    if gs.len() == 0 {
        Multiset::empty()
    } else {
        groups_event_multiset(gs.drop_last()).add(gs.last().events@.to_multiset())
    }
}

/// Every suffix sum of scaled group totals is non-negative.
pub proof fn lemma_suffix_total_nonnegative<E>(
    exps: Seq<i16>,
    gs: Seq<RejectionSamplingGroup<E>>,
    min: int,
    from: int,
)
    ensures
        suffix_total(exps, gs, min, from) >= 0,
    decreases exps.len() - from,
{
    if 0 <= from < exps.len() {
        lemma_suffix_total_nonnegative(exps, gs, min, from + 1);
        lemma_pow2_pos((exps[from] - min) as nat);
        vstd::arithmetic::mul::lemma_mul_nonnegative(
            gs[from].total_weight as int,
            pow2((exps[from] - min) as nat) as int,
        );
    }
}

/// Appending a stack entry adds its scaled total to every suffix sum.
pub proof fn lemma_suffix_total_push<E>(
    exps: Seq<i16>,
    gs: Seq<RejectionSamplingGroup<E>>,
    min: int,
    e: i16,
    g: RejectionSamplingGroup<E>,
    from: int,
)
    requires
        exps.len() == gs.len(),
        0 <= from <= exps.len(),
    ensures
        suffix_total(exps.push(e), gs.push(g), min, from) == suffix_total(exps, gs, min, from)
            + g.total_weight * pow2((e - min) as nat),
    decreases exps.len() - from,
{
    let nexps = exps.push(e);
    let ngs = gs.push(g);
    if from < exps.len() {
        assert(nexps[from] == exps[from] && ngs[from] == gs[from]);
        lemma_suffix_total_push(exps, gs, min, e, g, from + 1);
    } else {
        assert(nexps[from] == e && ngs[from] == g);
        assert(suffix_total(nexps, ngs, min, from + 1) == 0);
        assert(suffix_total(exps, gs, min, from) == 0);
    }
}

/// Inserting a stack entry at `at` adds its scaled total to every suffix
/// sum that starts at or before `at`.
pub proof fn lemma_suffix_total_insert<E>(
    exps: Seq<i16>,
    gs: Seq<RejectionSamplingGroup<E>>,
    min: int,
    at: int,
    e: i16,
    g: RejectionSamplingGroup<E>,
    from: int,
)
    requires
        exps.len() == gs.len(),
        0 <= at <= exps.len(),
        0 <= from <= at,
    ensures
        suffix_total(exps.insert(at, e), gs.insert(at, g), min, from) == suffix_total(
            exps,
            gs,
            min,
            from,
        ) + g.total_weight * pow2((e - min) as nat),
    decreases at - from,
{
    let nexps = exps.insert(at, e);
    let ngs = gs.insert(at, g);
    if from == at {
        assert(nexps[at] == e && ngs[at] == g);
        lemma_suffix_total_tail_shift(exps, gs, min, at, e, g, at + 1);
    } else {
        assert(nexps[from] == exps[from] && ngs[from] == gs[from]);
        lemma_suffix_total_insert(exps, gs, min, at, e, g, from + 1);
    }
}

/// After an insertion at `at`, the suffix sums past the insertion point
/// coincide with the original suffix sums shifted by one.
proof fn lemma_suffix_total_tail_shift<E>(
    exps: Seq<i16>,
    gs: Seq<RejectionSamplingGroup<E>>,
    min: int,
    at: int,
    e: i16,
    g: RejectionSamplingGroup<E>,
    from: int,
)
    requires
        exps.len() == gs.len(),
        0 <= at <= exps.len(),
        at + 1 <= from <= exps.len() + 1,
    ensures
        suffix_total(exps.insert(at, e), gs.insert(at, g), min, from) == suffix_total(
            exps,
            gs,
            min,
            from - 1,
        ),
    decreases exps.len() + 1 - from,
{
    let nexps = exps.insert(at, e);
    let ngs = gs.insert(at, g);
    if from < nexps.len() {
        assert(nexps[from] == exps[from - 1] && ngs[from] == gs[from - 1]);
        lemma_suffix_total_tail_shift(exps, gs, min, at, e, g, from + 1);
    }
}

/// Removing the stack entry at `at` subtracts its scaled total from
/// every suffix sum that starts at or before `at`.
pub proof fn lemma_suffix_total_remove<E>(
    exps: Seq<i16>,
    gs: Seq<RejectionSamplingGroup<E>>,
    min: int,
    at: int,
    from: int,
)
    requires
        exps.len() == gs.len(),
        0 <= at < exps.len(),
        0 <= from <= at,
    ensures
        suffix_total(exps.remove(at), gs.remove(at), min, from) == suffix_total(exps, gs, min, from)
            - gs[at].total_weight * pow2((exps[at] - min) as nat),
    decreases exps.len() - from,
{
    let nexps = exps.remove(at);
    let ngs = gs.remove(at);
    if from == at {
        lemma_suffix_total_remove_tail_shift(exps, gs, min, at, at);
    } else {
        assert(nexps[from] == exps[from] && ngs[from] == gs[from]);
        lemma_suffix_total_remove(exps, gs, min, at, from + 1);
    }
}

/// After a removal at `at`, the suffix sums from the removal point on
/// coincide with the original suffix sums shifted by one.
proof fn lemma_suffix_total_remove_tail_shift<E>(
    exps: Seq<i16>,
    gs: Seq<RejectionSamplingGroup<E>>,
    min: int,
    at: int,
    from: int,
)
    requires
        exps.len() == gs.len(),
        0 <= at < exps.len(),
        at <= from <= exps.len() - 1,
    ensures
        suffix_total(exps.remove(at), gs.remove(at), min, from) == suffix_total(
            exps,
            gs,
            min,
            from + 1,
        ),
    decreases exps.len() - from,
{
    let nexps = exps.remove(at);
    let ngs = gs.remove(at);
    if from < nexps.len() {
        assert(nexps[from] == exps[from + 1] && ngs[from] == gs[from + 1]);
        lemma_suffix_total_remove_tail_shift(exps, gs, min, at, from + 1);
    }
}

/// Replacing the group at `at` by one whose total differs adjusts every
/// suffix sum that starts at or before `at` by the scaled difference.
pub proof fn lemma_suffix_total_update<E>(
    exps: Seq<i16>,
    gs: Seq<RejectionSamplingGroup<E>>,
    min: int,
    at: int,
    g: RejectionSamplingGroup<E>,
    from: int,
)
    requires
        exps.len() == gs.len(),
        0 <= at < exps.len(),
        0 <= from <= at,
    ensures
        suffix_total(exps, gs.update(at, g), min, from) == suffix_total(exps, gs, min, from) + (
        g.total_weight - gs[at].total_weight) * pow2((exps[at] - min) as nat),
    decreases exps.len() - from,
{
    let ngs = gs.update(at, g);
    if from == at {
        assert(suffix_total(exps, ngs, min, at + 1) == suffix_total(exps, gs, min, at + 1)) by {
            lemma_suffix_total_same_tail(exps, gs, ngs, min, at + 1);
        }
        vstd::arithmetic::mul::lemma_mul_is_distributive_sub_other_way(
            pow2((exps[at] - min) as nat) as int,
            g.total_weight as int,
            gs[at].total_weight as int,
        );
    } else {
        lemma_suffix_total_update(exps, gs, min, at, g, from + 1);
    }
}

/// Suffix sums agree on any range where the two stacks agree.
proof fn lemma_suffix_total_same_tail<E>(
    exps: Seq<i16>,
    gs1: Seq<RejectionSamplingGroup<E>>,
    gs2: Seq<RejectionSamplingGroup<E>>,
    min: int,
    from: int,
)
    requires
        gs1.len() == gs2.len() == exps.len(),
        forall|j: int| from <= j < exps.len() ==> gs1[j] == gs2[j],
    ensures
        suffix_total(exps, gs1, min, from) == suffix_total(exps, gs2, min, from),
    decreases exps.len() - from,
{
    if 0 <= from < exps.len() {
        lemma_suffix_total_same_tail(exps, gs1, gs2, min, from + 1);
    }
}

/// Rebasing a suffix sum to a smaller reference exponent multiplies it
/// by two to the distance between the references.
pub proof fn lemma_suffix_total_rescale<E>(
    exps: Seq<i16>,
    gs: Seq<RejectionSamplingGroup<E>>,
    min_high: int,
    min_low: int,
    from: int,
)
    requires
        exps.len() == gs.len(),
        min_low <= min_high,
        forall|j: int| 0 <= j < exps.len() ==> min_high <= #[trigger] exps[j],
    ensures
        suffix_total(exps, gs, min_low, from) == suffix_total(exps, gs, min_high, from) * pow2(
            (min_high - min_low) as nat,
        ),
    decreases exps.len() - from,
{
    if from < 0 || from >= exps.len() {
    } else {
        lemma_suffix_total_rescale(exps, gs, min_high, min_low, from + 1);
        let t = gs[from].total_weight as int;
        let e = exps[from] as int;
        assert(t * pow2((e - min_low) as nat) == (t * pow2((e - min_high) as nat)) * pow2(
            (min_high - min_low) as nat,
        )) by {
            lemma_pow2_adds((e - min_high) as nat, (min_high - min_low) as nat);
            vstd::arithmetic::mul::lemma_mul_is_associative(
                t,
                pow2((e - min_high) as nat) as int,
                pow2((min_high - min_low) as nat) as int,
            );
        }
        vstd::arithmetic::mul::lemma_mul_is_distributive_add_other_way(
            pow2((min_high - min_low) as nat) as int,
            suffix_total(exps, gs, min_high, from + 1),
            gs[from].total_weight * pow2((exps[from] - min_high) as nat),
        );
    }
}

/// Appending a group adds its events to the stack's event multiset.
pub proof fn lemma_groups_event_multiset_push<E>(
    gs: Seq<RejectionSamplingGroup<E>>,
    g: RejectionSamplingGroup<E>,
)
    ensures
        groups_event_multiset(gs.push(g)) =~= groups_event_multiset(gs).add(
            g.events@.to_multiset(),
        ),
{
    assert(gs.push(g).drop_last() =~= gs);
}

/// Inserting a group adds its events to the stack's event multiset.
pub proof fn lemma_groups_event_multiset_insert<E>(
    gs: Seq<RejectionSamplingGroup<E>>,
    at: int,
    g: RejectionSamplingGroup<E>,
)
    requires
        0 <= at <= gs.len(),
    ensures
        groups_event_multiset(gs.insert(at, g)) =~= groups_event_multiset(gs).add(
            g.events@.to_multiset(),
        ),
    decreases gs.len(),
{
    let ngs = gs.insert(at, g);
    if at == gs.len() {
        assert(ngs =~= gs.push(g));
        lemma_groups_event_multiset_push(gs, g);
    } else {
        assert(ngs.drop_last() =~= gs.drop_last().insert(at, g));
        assert(ngs.last() == gs.last());
        lemma_groups_event_multiset_insert(gs.drop_last(), at, g);
    }
}

/// Removing a group takes its events out of the stack's event multiset.
pub proof fn lemma_groups_event_multiset_remove<E>(gs: Seq<RejectionSamplingGroup<E>>, at: int)
    requires
        0 <= at < gs.len(),
    ensures
        groups_event_multiset(gs.remove(at)).add(gs[at].events@.to_multiset())
            =~= groups_event_multiset(gs),
    decreases gs.len(),
{
    let ngs = gs.remove(at);
    if at == gs.len() - 1 {
        assert(ngs =~= gs.drop_last());
    } else {
        assert(ngs.drop_last() =~= gs.drop_last().remove(at));
        assert(ngs.last() == gs.last());
        lemma_groups_event_multiset_remove(gs.drop_last(), at);
    }
}

/// Replacing the group at `at` exchanges its events inside the stack's
/// event multiset, stated occurrence count by occurrence count.
pub proof fn lemma_groups_event_multiset_update<E>(
    gs: Seq<RejectionSamplingGroup<E>>,
    at: int,
    g: RejectionSamplingGroup<E>,
)
    requires
        0 <= at < gs.len(),
    ensures
        forall|v: E|
            #[trigger] groups_event_multiset(gs.update(at, g)).count(v)
                + gs[at].events@.to_multiset().count(v) == groups_event_multiset(gs).count(v)
                + g.events@.to_multiset().count(v),
    decreases gs.len(),
{
    broadcast use vstd::multiset::group_multiset_axioms;

    let ngs = gs.update(at, g);
    let dl = gs.drop_last();
    if at == gs.len() - 1 {
        assert(ngs.drop_last() =~= dl);
        assert(ngs.last() == g);
        assert(gs.last() == gs[at]);
        assert(forall|v: E|
            #[trigger] groups_event_multiset(ngs).count(v) == groups_event_multiset(dl).count(v)
                + g.events@.to_multiset().count(v));
        assert(forall|v: E|
            #[trigger] groups_event_multiset(gs).count(v) == groups_event_multiset(dl).count(v)
                + gs[at].events@.to_multiset().count(v));
    } else {
        assert(ngs.drop_last() =~= dl.update(at, g));
        assert(ngs.last() == gs.last());
        lemma_groups_event_multiset_update(dl, at, g);
        assert(dl[at] == gs[at]);
        assert(forall|v: E|
            #[trigger] groups_event_multiset(ngs).count(v) == groups_event_multiset(
                dl.update(at, g),
            ).count(v) + gs.last().events@.to_multiset().count(v));
        assert(forall|v: E|
            #[trigger] groups_event_multiset(gs).count(v) == groups_event_multiset(dl).count(v)
                + gs.last().events@.to_multiset().count(v));
    }
}

/// Swap-removing the element at `at` removes one occurrence of it from
/// the sequence's multiset.
pub proof fn lemma_swap_remove_multiset<A>(s: Seq<A>, at: int)
    requires
        0 <= at < s.len(),
        s.len() >= 2,
    ensures
        s.update(at, s.last()).drop_last().to_multiset() =~= s.to_multiset().remove(s[at]),
{
    broadcast use vstd::seq_lib::group_to_multiset_ensures;

    let t = s.update(at, s.last());
    assert(t.drop_last() =~= t.remove(t.len() - 1));
    if at == s.len() - 1 {
        assert(t =~= s);
    } else {
        let prefix = s.subrange(0, at);
        let middle_s = seq![s[at]];
        let middle_t = seq![s.last()];
        let suffix = s.subrange(at + 1, s.len() as int);
        assert(s =~= prefix + middle_s + suffix);
        assert(t =~= prefix + middle_t + suffix);
        vstd::seq_lib::lemma_multiset_commutative(prefix + middle_s, suffix);
        vstd::seq_lib::lemma_multiset_commutative(prefix, middle_s);
        vstd::seq_lib::lemma_multiset_commutative(prefix + middle_t, suffix);
        vstd::seq_lib::lemma_multiset_commutative(prefix, middle_t);
        assert(middle_s.to_multiset() =~= Multiset::empty().insert(s[at])) by {
            assert(middle_s =~= Seq::<A>::empty().push(s[at]));
        }
        assert(middle_t.to_multiset() =~= Multiset::empty().insert(s.last())) by {
            assert(middle_t =~= Seq::<A>::empty().push(s.last()));
        }
        assert(t.remove(t.len() - 1).to_multiset() =~= t.to_multiset().remove(s.last()));
    }
}

/// The dynamic weighted sampler: a stack of rejection-sampling groups
/// ordered by strictly decreasing binary exponent, with the running
/// total of all mantissas held exactly, scaled to the smallest exponent
/// present.
#[derive(PartialEq, Eq, Debug)]
pub struct DynamicAliasMethodStackSampler<E> {
    pub exponents: Vec<i16>,
    pub groups: Vec<RejectionSamplingGroup<E>>,
    pub min_exponent: i16,
    pub total_weight: u128,
}

impl<E> DynamicAliasMethodStackSampler<E> {
    /// The stack invariant: one well-formed, non-empty group per
    /// exponent, exponents strictly decreasing with `min_exponent` the
    /// last, and `total_weight` the exact sum of all group totals scaled
    /// to `min_exponent`.
    pub open spec fn well_formed(&self) -> bool {
        &&& self.exponents.len() == self.groups.len()
        &&& forall|i: int|
            0 <= i < self.groups.len() ==> (#[trigger] self.groups@[i]).well_formed()
        &&& forall|i: int, j: int|
            0 <= i < j < self.exponents.len() ==> #[trigger] self.exponents@[i]
                > #[trigger] self.exponents@[j]
        &&& forall|i: int|
            0 <= i < self.exponents.len() ==> -1022 <= #[trigger] self.exponents@[i] <= 1023
        &&& forall|i: int|
            0 <= i < self.exponents.len() ==> self.min_exponent <= #[trigger] self.exponents@[i]
        &&& (self.exponents.len() > 0 ==> self.min_exponent == self.exponents@[self.exponents.len()
            - 1])
        &&& (self.exponents.len() == 0 ==> self.min_exponent == 0)
        &&& -1022 <= self.min_exponent <= 1023
        &&& self.total_weight as int == suffix_total(
            self.exponents@,
            self.groups@,
            self.min_exponent as int,
            0,
        )
    }

    /// All events currently held, as a multiset.
    pub open spec fn spec_events(&self) -> Multiset<E> {
        groups_event_multiset(self.groups@)
    }

    /// The total weight rebased to the fixed reference exponent `-1022`,
    /// the smallest a decomposed weight can carry: the exact sum of
    /// `scaled_value` over every weight ever inserted and not removed.
    pub open spec fn spec_absolute_total(&self) -> int {
        self.total_weight * pow2((self.min_exponent + 1022) as nat)
    }

    /// An empty sampler.
    pub fn new() -> (r: Self)
        ensures
            r.well_formed(),
            r.spec_events() =~= Multiset::empty(),
            r.total_weight == 0,
            r.exponents@ =~= Seq::<i16>::empty(),
    {
        DynamicAliasMethodStackSampler {
            exponents: Vec::new(),
            groups: Vec::new(),
            min_exponent: 0,
            total_weight: 0,
        }
    }

    /// An empty sampler with room for `capacity` exponent groups.
    pub fn with_capacity(capacity: usize) -> (r: Self)
        ensures
            r.well_formed(),
            r.spec_events() =~= Multiset::empty(),
            r.total_weight == 0,
            r.exponents@ =~= Seq::<i16>::empty(),
    {
        DynamicAliasMethodStackSampler {
            exponents: Vec::with_capacity(capacity),
            groups: Vec::with_capacity(capacity),
            min_exponent: 0,
            total_weight: 0,
        }
    }

    /// Whether inserting `weight` keeps the scaled total inside 128 bits;
    /// `bits` is the weight's pattern.
    pub open spec fn spec_can_add(&self, bits: u64) -> bool {
        let g = spec_decomposed_exponent(bits);
        let m = spec_decomposed_mantissa(bits);
        if self.exponents.len() == 0 {
            true
        } else if g >= self.min_exponent {
            self.total_weight + m * pow2((g - self.min_exponent) as nat) <= u128::MAX
        } else {
            self.total_weight * pow2((self.min_exponent - g) as nat) + m <= u128::MAX
        }
    }

    /// Inserts `event` with the given positive, finite weight.
    pub fn add_push(&mut self, event: E, weight: PositiveF64)
        requires
            old(self).well_formed(),
            is_finite_bits(weight@),
            old(self).spec_can_add(weight@),
        ensures
            final(self).well_formed(),
            final(self).spec_events() =~= old(self).spec_events().insert(event),
            final(self).spec_absolute_total() == old(self).spec_absolute_total() + scaled_value(
                weight@,
            ),
            forall|i: int|
                0 <= i < final(self).exponents@.len() ==> (#[trigger] final(self).exponents@[
                i] as int == spec_decomposed_exponent(weight@) || old(self).exponents@.contains(
                    final(self).exponents@[i],
                )),
    {
        broadcast use vstd::multiset::group_multiset_axioms;
        broadcast use vstd::seq_lib::group_to_multiset_ensures;

        let d = decompose_weight(weight);
        let ghost gexp = d.exponent as int;
        let ghost m = d.mantissa as int;
        proof {
            lemma2_to64();
        }
        if self.exponents.len() == 0 {
            let grp = RejectionSamplingGroup::new(event, d.mantissa);
            proof {
                assert(grp.events@ =~= Seq::<E>::empty().push(event));
            }
            self.exponents.push(d.exponent);
            self.groups.push(grp);
            self.min_exponent = d.exponent;
            self.total_weight = d.mantissa as u128;
            proof {
                assert(self.groups@.drop_last() =~= Seq::<RejectionSamplingGroup<E>>::empty());
                assert(suffix_total(self.exponents@, self.groups@, gexp, 1) == 0);
                assert(self.total_weight as int == m * pow2(0));
                lemma_abs_total_distribute(0, m, gexp, gexp);
                assert(old(self).groups@ =~= Seq::<RejectionSamplingGroup<E>>::empty());
                assert(self.spec_events() =~= old(self).spec_events().insert(event));
            }
        } else {
            let mut i: usize = 0;
            while i < self.exponents.len() && self.exponents[i] > d.exponent
                invariant
                    i <= self.exponents.len(),
                    forall|j: int| 0 <= j < i ==> self.exponents@[j] > d.exponent,
                decreases self.exponents.len() - i,
            {
                i = i + 1;
            }
            proof {
                lemma_stack_total_positive(self);
            }
            if i < self.exponents.len() && self.exponents[i] == d.exponent {
                let ghost oexp = self.exponents@;
                let ghost ogs = self.groups@;
                let ghost min = self.min_exponent as int;
                proof {
                    lemma_shift_in_range(
                        self.total_weight as int,
                        m,
                        (gexp - min) as nat,
                    );
                }
                let shift = (self.exponents[i] as i32) - (self.min_exponent as i32);
                let p = pow2_u128(shift as u16);
                let mut grp = self.groups.remove(i);
                let ghost ogrp = grp;
                grp.add(event, d.mantissa);
                let ghost ngrp = grp;
                self.groups.insert(i, grp);
                proof {
                    assert(self.groups@ =~= ogs.update(i as int, ngrp));
                    vstd::arithmetic::mul::lemma_mul_nonnegative(m, p as int);
                }
                self.total_weight = self.total_weight + (d.mantissa as u128) * p;
                proof {
                    lemma_suffix_total_update(oexp, ogs, min, i as int, ngrp, 0);
                    assert((ngrp.total_weight - ogrp.total_weight) * pow2((gexp - min) as nat) == m
                        * pow2((gexp - min) as nat));
                    lemma_groups_event_multiset_update(ogs, i as int, ngrp);
                    assert(ngrp.events@ =~= ogrp.events@.push(event));
                    assert(self.spec_events() =~= old(self).spec_events().insert(event));
                    lemma_abs_total_distribute(old(self).total_weight as int, m, gexp, min);
                }
            } else if i == self.exponents.len() {
                let ghost oexp = self.exponents@;
                let ghost ogs = self.groups@;
                let ghost min = self.min_exponent as int;
                proof {
                    assert(gexp < min) by {
                        assert(self.exponents@[self.exponents.len() - 1] > d.exponent);
                    }
                    lemma_shift_in_range(
                        m,
                        self.total_weight as int,
                        (min - gexp) as nat,
                    );
                }
                let shift = (self.min_exponent as i32) - (d.exponent as i32);
                let p = pow2_u128(shift as u16);
                let grp = RejectionSamplingGroup::new(event, d.mantissa);
                proof {
                    assert(grp.events@ =~= Seq::<E>::empty().push(event));
                    vstd::arithmetic::mul::lemma_mul_nonnegative(self.total_weight as int, p as int);
                }
                self.exponents.push(d.exponent);
                self.groups.push(grp);
                self.total_weight = self.total_weight * p + d.mantissa as u128;
                self.min_exponent = d.exponent;
                proof {
                    lemma_suffix_total_rescale(oexp, ogs, min, gexp, 0);
                    lemma_suffix_total_push(oexp, ogs, gexp, d.exponent, grp, 0);
                    assert(grp.total_weight * pow2((gexp - gexp) as nat) == m) by {
                        assert(pow2(0) == 1);
                    }
                    lemma_groups_event_multiset_push(ogs, grp);
                    assert(self.spec_events() =~= old(self).spec_events().insert(event));
                    lemma_abs_total_rebase(old(self).total_weight as int, m, gexp, min);
                }
            } else {
                let ghost oexp = self.exponents@;
                let ghost ogs = self.groups@;
                let ghost min = self.min_exponent as int;
                proof {
                    assert(self.exponents@[i as int] < d.exponent);
                    assert(min <= self.exponents@[i as int]);
                    lemma_shift_in_range(
                        self.total_weight as int,
                        m,
                        (gexp - min) as nat,
                    );
                }
                let shift = (d.exponent as i32) - (self.min_exponent as i32);
                let p = pow2_u128(shift as u16);
                let grp = RejectionSamplingGroup::new(event, d.mantissa);
                proof {
                    assert(grp.events@ =~= Seq::<E>::empty().push(event));
                    vstd::arithmetic::mul::lemma_mul_nonnegative(m, p as int);
                }
                self.exponents.insert(i, d.exponent);
                self.groups.insert(i, grp);
                self.total_weight = self.total_weight + (d.mantissa as u128) * p;
                proof {
                    lemma_suffix_total_insert(oexp, ogs, min, i as int, d.exponent, grp, 0);
                    assert(grp.total_weight * pow2((gexp - min) as nat) == m * pow2(
                        (gexp - min) as nat,
                    ));
                    lemma_groups_event_multiset_insert(ogs, i as int, grp);
                    assert(self.spec_events() =~= old(self).spec_events().insert(event));
                    lemma_abs_total_distribute(old(self).total_weight as int, m, gexp, min);
                    assert forall|a: int, b: int|
                        0 <= a < b < self.exponents@.len() implies #[trigger] self.exponents@[a]
                        > #[trigger] self.exponents@[b] by {
                        let ii = i as int;
                        if b < ii {
                        } else if a < ii && b == ii {
                            assert(self.exponents@[a] == oexp[a]);
                        } else if a < ii && b > ii {
                            assert(self.exponents@[b] == oexp[b - 1]);
                        } else if a == ii {
                            assert(self.exponents@[b] == oexp[b - 1]);
                            assert(oexp[b - 1] <= oexp[ii]);
                        } else {
                            assert(self.exponents@[a] == oexp[a - 1]);
                            assert(self.exponents@[b] == oexp[b - 1]);
                        }
                    }
                    assert(self.exponents@[self.exponents@.len() - 1] == oexp[oexp.len() - 1]);
                }
            }
        }
    }
}

impl<E> DynamicAliasMethodStackSampler<E> {
    /// The index of the group whose scaled-total range contains `target`,
    /// walking the stack from the largest exponent down.
    fn find_group_index(&self, target: u128) -> (r: usize)
        requires
            self.well_formed(),
            target < self.total_weight,
        ensures
            r < self.groups.len(),
    {
        let ghost exps = self.exponents@;
        let ghost gs = self.groups@;
        let ghost min = self.min_exponent as int;
        let mut i: usize = 0;
        let mut acc: u128 = 0;
        loop
            invariant
                self.well_formed(),
                exps == self.exponents@,
                gs == self.groups@,
                min == self.min_exponent as int,
                target < self.total_weight,
                i <= self.groups.len(),
                acc <= target,
                acc as int + suffix_total(exps, gs, min, i as int) == self.total_weight as int,
            decreases self.groups.len() - i,
        {
            proof {
                if i == self.groups.len() {
                    assert(suffix_total(exps, gs, min, i as int) == 0);
                }
                lemma_suffix_total_nonnegative(exps, gs, min, i + 1);
                lemma_pow2_pos((exps[i as int] - min) as nat);
                vstd::arithmetic::mul::lemma_mul_nonnegative(
                    gs[i as int].total_weight as int,
                    pow2((exps[i as int] - min) as nat) as int,
                );
                lemma_sum_of_weights_bounds(gs[i as int].weights@);
                lemma_shift_in_range(
                    0,
                    gs[i as int].total_weight as int,
                    (exps[i as int] - min) as nat,
                );
            }
            let shift = (self.exponents[i] as i32) - (self.min_exponent as i32);
            let p = pow2_u128(shift as u16);
            let term = self.groups[i].total_weight * p;
            if target - acc < term {
                return i;
            }
            acc = acc + term;
            i = i + 1;
        }
    }

    /// Draws one event with probability proportional to its weight and
    /// removes it; yields nothing exactly when the sampler is empty.
    pub fn sample_pop<G: RngCore>(&mut self, rng: &mut G) -> (r: Option<E>)
        requires
            old(self).well_formed(),
        ensures
            final(self).well_formed(),
            forall|i: int|
                0 <= i < final(self).exponents@.len() ==> old(self).exponents@.contains(
                    #[trigger] final(self).exponents@[i],
                ),
            match r {
                Some(e) => {
                    &&& old(self).total_weight > 0
                    &&& old(self).spec_events().count(e) >= 1
                    &&& final(self).spec_events() =~= old(self).spec_events().remove(e)
                },
                None => old(self).total_weight == 0 && *final(self) == *old(self),
            },
    {
        broadcast use vstd::multiset::group_multiset_axioms;
        broadcast use vstd::seq_lib::group_to_multiset_ensures;

        if self.total_weight == 0 {
            return None;
        }
        let x = rng.sample_u64();
        let target: u128;
        if self.total_weight <= 0xffff_ffff_ffff_ffffu128 {
            proof {
                crate::rng::lemma_u64_product_fits_u128(x as u128, self.total_weight);
            }
            let wide = (x as u128) * self.total_weight;
            target = wide >> 64u128;
            proof {
                vstd::bits::lemma_u128_shr_is_div(wide, 64u128);
                assert(pow2(64) == 0x1_0000_0000_0000_0000) by {
                    lemma2_to64_rest();
                }
                vstd::arithmetic::mul::lemma_mul_strict_inequality(
                    x as int,
                    0x1_0000_0000_0000_0000,
                    self.total_weight as int,
                );
                vstd::arithmetic::div_mod::lemma_multiply_divide_lt(
                    wide as int,
                    0x1_0000_0000_0000_0000,
                    self.total_weight as int,
                );
            }
        } else {
            let hi = rng.sample_u64();
            let wide = ((hi as u128) << 64u128) | (x as u128);
            target = wide % self.total_weight;
        }
        let chosen = self.find_group_index(target);
        let ghost oexp = self.exponents@;
        let ghost ogs = self.groups@;
        let ghost min = self.min_exponent as int;
        let ghost ototal = self.total_weight as int;
        proof {
            lemma_suffix_total_nonnegative(oexp, ogs, min, chosen + 1);
            lemma_suffix_total_split_term(oexp, ogs, min, chosen as int);
            lemma_sum_of_weights_bounds(ogs[chosen as int].weights@);
            lemma_shift_in_range(
                0,
                ogs[chosen as int].total_weight as int,
                (oexp[chosen as int] - min) as nat,
            );
        }
        let shift = (self.exponents[chosen] as i32) - (self.min_exponent as i32);
        let p = pow2_u128(shift as u16);
        let ghost pterm = pow2((oexp[chosen as int] - min) as nat) as int;
        let grp = self.groups.remove(chosen);
        let ghost g0 = grp;
        let t0 = grp.total_weight;
        let (maybe_grp, event) = grp.sample_pop(rng);
        proof {
            lemma_groups_event_multiset_remove(ogs, chosen as int);
        }
        match maybe_grp {
            Some(g2) => {
                let t1 = g2.total_weight;
                let ghost gw = (t0 - t1) as int;
                self.groups.insert(chosen, g2);
                proof {
                    assert(self.groups@ =~= ogs.update(chosen as int, g2));
                    lemma_suffix_total_update(oexp, ogs, min, chosen as int, g2, 0);
                    assert((g2.total_weight - g0.total_weight) * pterm == -(gw * pterm)) by {
                        vstd::arithmetic::mul::lemma_mul_is_distributive_sub_other_way(
                            pterm,
                            g2.total_weight as int,
                            g0.total_weight as int,
                        );
                        vstd::arithmetic::mul::lemma_mul_is_distributive_sub_other_way(
                            pterm,
                            g0.total_weight as int,
                            g2.total_weight as int,
                        );
                    }
                    assert(gw * pterm <= g0.total_weight as int * pterm) by {
                        vstd::arithmetic::mul::lemma_mul_inequality(
                            gw,
                            g0.total_weight as int,
                            pterm,
                        );
                    }
                    vstd::arithmetic::mul::lemma_mul_nonnegative(gw, pterm);
                }
                let delta = (t0 - t1) * p;
                self.total_weight = self.total_weight - delta;
                proof {
                    lemma_groups_event_multiset_update(ogs, chosen as int, g2);
                    let ghost i = choose|i: int|
                        {
                            &&& 0 <= i < g0.events@.len()
                            &&& event == g0.events@[i]
                            &&& g2.events@ == g0.events@.update(i, g0.events@.last()).drop_last()
                        };
                    lemma_swap_remove_multiset(g0.events@, i);
                    assert(g0.events@.to_multiset().count(event) >= 1);
                    assert(old(self).spec_events().count(event) >= 1);
                    assert(self.spec_events() =~= old(self).spec_events().remove(event));
                }
            },
            None => {
                self.exponents.remove(chosen);
                proof {
                    lemma_suffix_total_remove(oexp, ogs, min, chosen as int, 0);
                    assert(g0.total_weight as int * pterm <= ototal);
                    vstd::arithmetic::mul::lemma_mul_nonnegative(g0.total_weight as int, pterm);
                }
                let delta = t0 * p;
                self.total_weight = self.total_weight - delta;
                proof {
                    assert(g0.events@ =~= Seq::<E>::empty().push(event));
                    assert(g0.events@.to_multiset() =~= Multiset::empty().insert(event));
                    assert(old(self).spec_events().count(event) >= 1);
                    assert(self.spec_events() =~= old(self).spec_events().remove(event));
                }
                if self.groups.len() == 0 {
                    self.min_exponent = 0;
                    proof {
                        assert(suffix_total(self.exponents@, self.groups@, min, 0) == 0);
                        assert(suffix_total(self.exponents@, self.groups@, 0, 0) == 0);
                    }
                } else if chosen == self.groups.len() {
                    let new_min = self.exponents[self.exponents.len() - 1];
                    proof {
                        assert(oexp[chosen as int] == min);
                        assert(self.exponents@[self.exponents@.len() - 1] == oexp[oexp.len() - 2]);
                        assert(oexp[oexp.len() - 2] > min);
                        assert(forall|j: int|
                            0 <= j < self.exponents@.len() ==> new_min
                                <= #[trigger] self.exponents@[j]);
                        lemma_suffix_total_rescale(
                            self.exponents@,
                            self.groups@,
                            new_min as int,
                            min,
                            0,
                        );
                        assert((self.groups@[0]).well_formed());
                        lemma_nonempty_rebased_total_positive(
                            self.exponents@,
                            self.groups@,
                            new_min as int,
                        );
                        lemma_suffix_total_nonnegative(
                            self.exponents@,
                            self.groups@,
                            new_min as int,
                            1,
                        );
                        lemma_shift_in_range(
                            0,
                            suffix_total(self.exponents@, self.groups@, new_min as int, 0),
                            (new_min - min) as nat,
                        );
                    }
                    let s2 = (new_min as i32) - (self.min_exponent as i32);
                    let q = pow2_u128(s2 as u16);
                    proof {
                        vstd::arithmetic::div_mod::lemma_div_multiples_vanish(
                            suffix_total(self.exponents@, self.groups@, new_min as int, 0),
                            q as int,
                        );
                        vstd::arithmetic::mul::lemma_mul_is_commutative(
                            suffix_total(self.exponents@, self.groups@, new_min as int, 0),
                            q as int,
                        );
                    }
                    self.total_weight = self.total_weight / q;
                    self.min_exponent = new_min;
                }
            },
        }
        Some(event)
    }
}

/// A suffix sum splits into its first term and the remaining suffix,
/// and the term is bounded by any enclosing prefix of the total.
pub proof fn lemma_suffix_total_split_term<E>(
    exps: Seq<i16>,
    gs: Seq<RejectionSamplingGroup<E>>,
    min: int,
    at: int,
)
    requires
        exps.len() == gs.len(),
        0 <= at < exps.len(),
    ensures
        gs[at].total_weight * pow2((exps[at] - min) as nat) <= suffix_total(exps, gs, min, 0),
    decreases at,
{
    lemma_suffix_total_nonnegative(exps, gs, min, at + 1);
    if at == 0 {
    } else {
        lemma_suffix_total_split_term(exps.drop_first(), gs.drop_first(), min, at - 1);
        assert(exps.drop_first()[at - 1] == exps[at] && gs.drop_first()[at - 1] == gs[at]);
        lemma_suffix_total_shift_one(exps, gs, min, 1);
        lemma_pow2_pos((exps[0] - min) as nat);
        vstd::arithmetic::mul::lemma_mul_nonnegative(
            gs[0].total_weight as int,
            pow2((exps[0] - min) as nat) as int,
        );
    }
}

/// The suffix sums of a stack with its first entry dropped coincide with
/// the original suffix sums shifted by one.
proof fn lemma_suffix_total_shift_one<E>(
    exps: Seq<i16>,
    gs: Seq<RejectionSamplingGroup<E>>,
    min: int,
    from: int,
)
    requires
        exps.len() == gs.len(),
        exps.len() >= 1,
        1 <= from <= exps.len(),
    ensures
        suffix_total(exps, gs, min, from) == suffix_total(
            exps.drop_first(),
            gs.drop_first(),
            min,
            from - 1,
        ),
    decreases exps.len() - from,
{
    if from < exps.len() {
        assert(exps.drop_first()[from - 1] == exps[from] && gs.drop_first()[from - 1] == gs[from]);
        lemma_suffix_total_shift_one(exps, gs, min, from + 1);
    }
}

/// A non-empty stack of well-formed groups, rebased to its own smallest
/// exponent, has total at least one.
proof fn lemma_nonempty_rebased_total_positive<E>(
    exps: Seq<i16>,
    gs: Seq<RejectionSamplingGroup<E>>,
    min: int,
)
    requires
        exps.len() == gs.len(),
        exps.len() >= 1,
        gs[0].well_formed(),
    ensures
        suffix_total(exps, gs, min, 0) >= 1 + suffix_total(exps, gs, min, 1),
{
    lemma_sum_of_weights_bounds(gs[0].weights@);
    lemma_pow2_pos((exps[0] - min) as nat);
    vstd::arithmetic::mul::lemma_mul_inequality(
        1,
        gs[0].total_weight as int,
        pow2((exps[0] - min) as nat) as int,
    );
}

/// Copies a vector of plain values element by element.
pub fn clone_vec_copy<T: Copy>(v: &Vec<T>) -> (r: Vec<T>)
    ensures
        r@ == v@,
{
    let mut out: Vec<T> = Vec::new();
    let mut i: usize = 0;
    while i < v.len()
        invariant
            i <= v.len(),
            out@ =~= v@.subrange(0, i as int),
        decreases v.len() - i,
    {
        out.push(v[i]);
        proof {
            assert(out@ =~= v@.subrange(0, (i + 1) as int));
        }
        i = i + 1;
    }
    proof {
        assert(v@.subrange(0, v@.len() as int) =~= v@);
    }
    out
}

/// The events of a stack of groups, in stack order.
pub open spec fn groups_events_concat<E>(gs: Seq<RejectionSamplingGroup<E>>) -> Seq<E>
    decreases gs.len(),
{
    if gs.len() == 0 {
        Seq::empty()
    } else {
        groups_events_concat(gs.drop_last()) + gs.last().events@
    }
}

impl<E: Copy> DynamicAliasMethodStackSampler<E> {
    /// All events, walking the stack from the largest exponent down and
    /// each group in storage order.
    pub fn iter_all_events_ordered(&self) -> (r: Vec<E>)
        ensures
            r@ == groups_events_concat(self.groups@),
    {
        let mut out: Vec<E> = Vec::new();
        let mut gi: usize = 0;
        while gi < self.groups.len()
            invariant
                gi <= self.groups.len(),
                out@ == groups_events_concat(self.groups@.subrange(0, gi as int)),
            decreases self.groups.len() - gi,
        {
            let mut ei: usize = 0;
            let ghost base = out@;
            while ei < self.groups[gi].events.len()
                invariant
                    gi < self.groups.len(),
                    ei <= self.groups[gi as int].events.len(),
                    out@ == base + self.groups[gi as int].events@.subrange(0, ei as int),
                decreases self.groups[gi as int].events.len() - ei,
            {
                out.push(self.groups[gi].events[ei]);
                proof {
                    assert(base + self.groups[gi as int].events@.subrange(0, (ei + 1) as int)
                        =~= (base + self.groups[gi as int].events@.subrange(0, ei as int)).push(
                        self.groups[gi as int].events@[ei as int],
                    ));
                }
                ei = ei + 1;
            }
            proof {
                let pre = self.groups@.subrange(0, gi as int);
                let now = self.groups@.subrange(0, (gi + 1) as int);
                assert(now.drop_last() =~= pre);
                assert(now.last() == self.groups@[gi as int]);
                assert(self.groups@[gi as int].events@.subrange(
                    0,
                    self.groups@[gi as int].events@.len() as int,
                ) =~= self.groups@[gi as int].events@);
            }
            gi = gi + 1;
        }
        proof {
            assert(self.groups@.subrange(0, self.groups@.len() as int) =~= self.groups@);
        }
        out
    }

    /// Whether two samplers hold identical state, field by field and
    /// group by group.
    pub open spec fn spec_matches(&self, other: &Self) -> bool {
        &&& self.exponents@ == other.exponents@
        &&& self.min_exponent == other.min_exponent
        &&& self.total_weight == other.total_weight
        &&& self.groups@.len() == other.groups@.len()
        &&& forall|i: int|
            0 <= i < self.groups@.len() ==> {
                &&& (#[trigger] self.groups@[i]).events@ == other.groups@[i].events@
                &&& self.groups@[i].weights@ == other.groups@[i].weights@
                &&& self.groups@[i].total_weight == other.groups@[i].total_weight
            }
    }

    /// An exact copy of the sampler, so a speculative draw can be made
    /// without disturbing the original.
    pub fn backup_unchecked(&self) -> (r: Self)
        ensures
            r.spec_matches(self),
    {
        let mut groups: Vec<RejectionSamplingGroup<E>> = Vec::new();
        let mut gi: usize = 0;
        while gi < self.groups.len()
            invariant
                gi <= self.groups.len(),
                groups@.len() == gi,
                forall|i: int|
                    0 <= i < gi ==> {
                        &&& (#[trigger] groups@[i]).events@ == self.groups@[i].events@
                        &&& groups@[i].weights@ == self.groups@[i].weights@
                        &&& groups@[i].total_weight == self.groups@[i].total_weight
                    },
            decreases self.groups.len() - gi,
        {
            let g = RejectionSamplingGroup {
                events: clone_vec_copy(&self.groups[gi].events),
                weights: clone_vec_copy(&self.groups[gi].weights),
                total_weight: self.groups[gi].total_weight,
            };
            groups.push(g);
            gi = gi + 1;
        }
        DynamicAliasMethodStackSampler {
            exponents: clone_vec_copy(&self.exponents),
            groups,
            min_exponent: self.min_exponent,
            total_weight: self.total_weight,
        }
    }
}

impl<E> DynamicAliasMethodStackSampler<E> {
    /// The total weight as a non-negative double: the nearest double to
    /// `total_weight * 2^(min_exponent - 52)`, rounding ties to even,
    /// saturating to `+infinity`. The result is zero exactly when the
    /// sampler is empty: the smallest possible total, one subnormal
    /// mantissa unit, is itself representable.
    pub fn total_weight(&self) -> (r: crate::bond::NonNegativeF64)
        requires
            self.well_formed(),
        ensures
            (r@ == 0u64) <==> (self.total_weight == 0),
    {
        if self.total_weight == 0 {
            return crate::bond::NonNegativeF64::zero();
        }
        proof {
            lemma2_to64();
        }
        // locate the highest set bit of the total
        let mut h: u16 = 0;
        let mut tmp: u128 = self.total_weight;
        while tmp >= 2
            invariant
                1 <= tmp,
                h < 128,
                self.total_weight >= 1,
                tmp as int == self.total_weight as int / (pow2(h as nat) as int),
            decreases tmp,
        {
            proof {
                lemma2_to64();
                lemma_pow2_pos(h as nat);
                vstd::arithmetic::div_mod::lemma_div_denominator(
                    self.total_weight as int,
                    pow2(h as nat) as int,
                    2,
                );
                lemma_pow2_adds(h as nat, 1);
                vstd::arithmetic::div_mod::lemma_remainder_lower(
                    self.total_weight as int,
                    pow2(h as nat) as int,
                );
                vstd::arithmetic::mul::lemma_mul_inequality(
                    2,
                    tmp as int,
                    pow2(h as nat) as int,
                );
                vstd::arithmetic::mul::lemma_mul_is_commutative(tmp as int, pow2(h as nat) as int);
                if h as nat + 1 == 128 {
                    lemma_pow2_128_value();
                }
            }
            tmp = tmp / 2;
            h = h + 1;
        }
        proof {
            lemma_pow2_pos(h as nat);
            vstd::arithmetic::div_mod::lemma_remainder_lower(
                self.total_weight as int,
                pow2(h as nat) as int,
            );
            vstd::arithmetic::div_mod::lemma_remainder_upper(
                self.total_weight as int,
                pow2(h as nat) as int,
            );
            lemma_pow2_adds(h as nat, 1);
        }
        // 2^h <= total_weight < 2^(h+1)
        let be_wide: i32 = (self.min_exponent as i32) + (h as i32) + 971;
        if be_wide >= 2047 {
            return crate::bond::PositiveF64::infinity().into_non_negative();
        }
        if be_wide >= 1 {
            let mut be: u64 = be_wide as u64;
            let mut m53: u64;
            if h > 52 {
                let s = h - 52;
                let div = pow2_u128(s);
                let q = self.total_weight / div;
                let rem = self.total_weight % div;
                proof {
                    lemma_pow2_adds(s as nat, 52);
                    lemma_pow2_adds(s as nat, 53);
                    lemma2_to64_rest();
                    vstd::arithmetic::div_mod::lemma_multiply_divide_lt(
                        self.total_weight as int,
                        pow2(s as nat) as int,
                        pow2(53) as int,
                    );
                    assert(pow2(s as nat) as int * pow2(53) as int == pow2((s + 53) as nat)) by {
                        lemma_pow2_adds(s as nat, 53);
                    }
                    vstd::arithmetic::div_mod::lemma_div_is_ordered(
                        pow2((s + 52) as nat) as int,
                        self.total_weight as int,
                        pow2(s as nat) as int,
                    );
                    vstd::arithmetic::div_mod::lemma_div_multiples_vanish(
                        pow2(52) as int,
                        pow2(s as nat) as int,
                    );
                    vstd::arithmetic::mul::lemma_mul_is_commutative(
                        pow2(52) as int,
                        pow2(s as nat) as int,
                    );
                }
                m53 = q as u64;
                // round to nearest, ties to even
                if rem > div / 2 || (rem == div / 2 && m53 % 2 == 1) {
                    m53 = m53 + 1;
                }
            } else {
                let s = 52 - h;
                let mul128 = pow2_u128(s);
                proof {
                    lemma2_to64();
                    lemma2_to64_rest();
                    lemma_pow2_strictly_increases(s as nat, 53);
                    if ((h + 1) as nat) < 53 {
                        lemma_pow2_strictly_increases((h + 1) as nat, 53);
                    }
                }
                let mul = mul128 as u64;
                proof {
                    lemma_pow2_adds(s as nat, (h + 1) as nat);
                    vstd::arithmetic::mul::lemma_mul_strict_inequality(
                        self.total_weight as int,
                        pow2((h + 1) as nat) as int,
                        pow2(s as nat) as int,
                    );
                    vstd::arithmetic::mul::lemma_mul_is_commutative(
                        self.total_weight as int,
                        pow2(s as nat) as int,
                    );
                    vstd::arithmetic::mul::lemma_mul_is_commutative(
                        pow2((h + 1) as nat) as int,
                        pow2(s as nat) as int,
                    );
                    vstd::arithmetic::mul::lemma_mul_inequality(
                        1,
                        self.total_weight as int,
                        pow2(s as nat) as int,
                    );
                }
                m53 = (self.total_weight as u64) * mul;
            }
            if m53 >= MANTISSA_LIMIT {
                m53 = m53 / 2;
                be = be + 1;
            }
            if be >= 2047 {
                return crate::bond::PositiveF64::infinity().into_non_negative();
            }
            let bits = (be << 52u64) | (m53 & FRACTION_MASK);
            proof {
                let bb = bits;
                let bee = be;
                let mm = m53 & FRACTION_MASK;
                assert(bee >= 1 && bee < 2047 && mm == m53 & 0x000f_ffff_ffff_ffffu64 && bb == (
                bee << 52u64) | mm ==> bb >> 63u64 == 0u64 && (bb >> 52u64) & 0x7ffu64 == bee
                    && bb != 0u64) by (bit_vector);
            }
            crate::bond::NonNegativeF64::new_unchecked(bits)
        } else {
            // subnormal range: the scaled total fits the fraction exactly
            let s = (self.min_exponent as i32) + 1022;
            proof {
                lemma2_to64();
                lemma2_to64_rest();
                assert(0 <= s + h + 1 <= 52);
            }
            let mul128 = pow2_u128(s as u16);
            proof {
                lemma_pow2_strictly_increases(s as nat, 52);
            }
            let mul = mul128 as u64;
            proof {
                lemma_pow2_adds(s as nat, (h + 1) as nat);
                if ((s + h + 1) as nat) < 52 {
                    lemma_pow2_strictly_increases(((s + h + 1) as nat), 52);
                }
                vstd::arithmetic::mul::lemma_mul_strict_inequality(
                    self.total_weight as int,
                    pow2((h + 1) as nat) as int,
                    pow2(s as nat) as int,
                );
                vstd::arithmetic::mul::lemma_mul_is_commutative(
                    self.total_weight as int,
                    pow2(s as nat) as int,
                );
                vstd::arithmetic::mul::lemma_mul_is_commutative(
                    pow2((h + 1) as nat) as int,
                    pow2(s as nat) as int,
                );
                vstd::arithmetic::mul::lemma_mul_inequality(
                    1,
                    self.total_weight as int,
                    pow2(s as nat) as int,
                );
                lemma_pow2_strictly_increases((h + 1) as nat, 64);
            }
            let bits = (self.total_weight as u64) * mul;
            proof {
                let bb = bits;
                assert(bb < 0x0010_0000_0000_0000u64 ==> bb >> 63u64 == 0u64 && (bb >> 52u64)
                    & 0x7ffu64 == 0u64) by (bit_vector);
            }
            crate::bond::NonNegativeF64::new_unchecked(bits)
        }
    }
}

impl<E> Default for DynamicAliasMethodStackSampler<E> {
    /// An empty sampler.
    fn default() -> (r: Self)
        ensures
            r.well_formed(),
            r.spec_events() =~= Multiset::empty(),
            r.total_weight == 0,
            r.exponents@ =~= Seq::<i16>::empty(),
    {
        DynamicAliasMethodStackSampler::new()
    }
}

/// Appends the decimal digits of `v` to `out`.
fn push_u128_decimal(out: &mut String, v: u128) {
    let mut digits: Vec<u8> = Vec::new();
    let mut rest = v;
    loop
        invariant_except_break
            true,
        decreases rest,
    {
        let d = (rest % 10) as u8;
        digits.push(d);
        if rest < 10 {
            break ;
        }
        proof {
            vstd::arithmetic::div_mod::lemma_div_is_strictly_smaller(rest as int, 10);
        }
        rest = rest / 10;
    }
    let mut i = digits.len();
    while i > 0
        invariant
            i <= digits.len(),
        decreases i,
    {
        i = i - 1;
        out.append(digit_str(digits[i]));
    }
}

/// The decimal digit `d` as text; digits ten and above render as `?`,
/// which no caller produces.
fn digit_str(d: u8) -> &'static str {
    if d == 0 {
        "0"
    } else if d == 1 {
        "1"
    } else if d == 2 {
        "2"
    } else if d == 3 {
        "3"
    } else if d == 4 {
        "4"
    } else if d == 5 {
        "5"
    } else if d == 6 {
        "6"
    } else if d == 7 {
        "7"
    } else if d == 8 {
        "8"
    } else if d == 9 {
        "9"
    } else {
        "?"
    }
}

/// Appends the decimal rendering of a signed exponent to `out`.
fn push_i32_decimal(out: &mut String, v: i32)
    requires
        v > i32::MIN,
{
    if v < 0 {
        out.append("-");
        push_u128_decimal(out, (-v) as u128);
    } else {
        push_u128_decimal(out, v as u128);
    }
}

/// Appends `total * 2^(min - 52)` to `out` in plain decimal notation,
/// or in `mantissa*2^exponent` notation where the decimal form would
/// not fit 128-bit arithmetic.
fn push_scaled_decimal(out: &mut String, total: u128, min: i16) {
    if total == 0 {
        out.append("0.0");
        return ;
    }
    if min >= 52 {
        let shift = (min - 52) as u16;
        if shift < 128 {
            let p = pow2_u128(shift);
            if total <= u128::MAX / p {
                proof {
                    vstd::arithmetic::div_mod::lemma_remainder_lower(u128::MAX as int, p as int);
                    vstd::arithmetic::mul::lemma_mul_inequality(
                        total as int,
                        (u128::MAX / p) as int,
                        p as int,
                    );
                }
                push_u128_decimal(out, total * p);
                out.append(".0");
                return ;
            }
        }
    } else {
        let shift = (52 - (min as i32)) as u32;
        if shift <= 100 {
            proof {
                lemma2_to64();
                lemma2_to64_rest();
                lemma_pow2_adds(64, 36);
                if (shift as nat) < 100 {
                    lemma_pow2_strictly_increases(shift as nat, 100);
                }
            }
            let den = pow2_u128(shift as u16);
            push_u128_decimal(out, total / den);
            out.append(".");
            let mut rem = total % den;
            if rem == 0 {
                out.append("0");
            } else {
                let mut rounds: u32 = 0;
                while rem > 0 && rounds < 128
                    invariant
                        den >= 1,
                        den <= 0x10_0000_0000_0000_0000_0000_0000u128,
                        rem < den,
                    decreases 128 - rounds,
                {
                    let scaled = rem * 10;
                    proof {
                        vstd::arithmetic::div_mod::lemma_multiply_divide_lt(
                            scaled as int,
                            den as int,
                            10,
                        );
                    }
                    out.append(digit_str((scaled / den) as u8));
                    rem = scaled % den;
                    rounds = rounds + 1;
                }
            }
            return ;
        }
    }
    // out of decimal range: fall back to mantissa-exponent notation
    push_u128_decimal(out, total);
    out.append("*2^");
    push_i32_decimal(out, (min as i32) - 52);
}

impl<E> DynamicAliasMethodStackSampler<E> {
    /// A textual rendering of the sampler state: the exponent stack and
    /// the total weight, in the shape a derived debug format would use.
    pub fn debug_string(&self) -> String {
        let mut out = String::new();
        out.append("DynamicAliasMethodStackSampler { exponents: [");
        let mut i: usize = 0;
        while i < self.exponents.len()
            decreases self.exponents.len() - i,
        {
            if i > 0 {
                out.append(", ");
            }
            push_i32_decimal(&mut out, self.exponents[i] as i32);
            i = i + 1;
        }
        out.append("], total_weight: ");
        push_scaled_decimal(&mut out, self.total_weight, self.min_exponent);
        out.append(", .. }");
        out
    }
}

/// The dynamic weighted sampler's accounting law: after any sequence of
/// insert and sample-pop operations — that is, in every well-formed
/// state, which those operations preserve — the cached `total_weight`
/// of each group is the exact integer sum of its atomic mantissas, and
/// the sampler's `total_weight` is the exact sum of the group totals,
/// each scaled by two to the distance between its exponent and
/// `min_exponent`.
pub proof fn lemma_total_weight_is_exact_scaled_sum<E>(s: &DynamicAliasMethodStackSampler<E>)
    requires
        s.well_formed(),
    ensures
        forall|i: int|
            0 <= i < s.groups@.len() ==> (#[trigger] s.groups@[i]).total_weight == sum_of_weights(
                s.groups@[i].weights@,
            ),
        s.total_weight as int == suffix_total(
            s.exponents@,
            s.groups@,
            s.min_exponent as int,
            0,
        ),
{
}

/// A stack with at least one group has a strictly positive total.
pub proof fn lemma_stack_total_positive<E>(s: &DynamicAliasMethodStackSampler<E>)
    requires
        s.well_formed(),
        s.exponents.len() > 0,
    ensures
        s.total_weight >= 1,
{
    lemma_suffix_total_nonnegative(s.exponents@, s.groups@, s.min_exponent as int, 1);
    lemma_sum_of_weights_bounds(s.groups@[0].weights@);
    lemma_pow2_pos((s.exponents@[0] - s.min_exponent) as nat);
    vstd::arithmetic::mul::lemma_mul_inequality(
        1,
        s.groups@[0].total_weight as int,
        pow2((s.exponents@[0] - s.min_exponent) as nat) as int,
    );
}

/// If `a + b * 2^k` fits in 128 bits with `a >= 0` and `b >= 1`, the
/// exponent `k` is below 128.
pub proof fn lemma_shift_in_range(a: int, b: int, k: nat)
    requires
        a >= 0,
        b >= 1,
        a + b * pow2(k) <= u128::MAX,
    ensures
        k < 128,
        pow2(k) <= u128::MAX,
{
    lemma_pow2_pos(k);
    vstd::arithmetic::mul::lemma_mul_inequality(1, b, pow2(k) as int);
    if k >= 128 {
        lemma_pow2_128_value();
        if k > 128 {
            lemma_pow2_strictly_increases(128, k);
        }
    }
}

/// Distributes one added mantissa over the rebase to the reference
/// exponent: `(t + m*2^(g-min)) * 2^(min+1022) == t * 2^(min+1022) + m * 2^(g+1022)`.
proof fn lemma_abs_total_distribute(t: int, m: int, g: int, min: int)
    requires
        min <= g,
        -1022 <= min,
    ensures
        (t + m * pow2((g - min) as nat)) * pow2((min + 1022) as nat) == t * pow2(
            (min + 1022) as nat,
        ) + m * pow2((g + 1022) as nat),
{
    let pg = pow2((g - min) as nat) as int;
    let pm = pow2((min + 1022) as nat) as int;
    vstd::arithmetic::mul::lemma_mul_is_distributive_add_other_way(pm, t, m * pg);
    lemma_pow2_adds((g - min) as nat, (min + 1022) as nat);
    vstd::arithmetic::mul::lemma_mul_is_associative(m, pg, pm);
}

/// Rebases a total from `min` down to a smaller reference `g`:
/// `(t * 2^(min-g) + m) * 2^(g+1022) == t * 2^(min+1022) + m * 2^(g+1022)`.
proof fn lemma_abs_total_rebase(t: int, m: int, g: int, min: int)
    requires
        g <= min,
        -1022 <= g,
    ensures
        (t * pow2((min - g) as nat) + m) * pow2((g + 1022) as nat) == t * pow2(
            (min + 1022) as nat,
        ) + m * pow2((g + 1022) as nat),
{
    let ps = pow2((min - g) as nat) as int;
    let pg = pow2((g + 1022) as nat) as int;
    vstd::arithmetic::mul::lemma_mul_is_distributive_add_other_way(pg, t * ps, m);
    lemma_pow2_adds((min - g) as nat, (g + 1022) as nat);
    vstd::arithmetic::mul::lemma_mul_is_associative(t, ps, pg);
}

} // verus!
