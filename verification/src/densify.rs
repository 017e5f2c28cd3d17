//! Error-weighted densification: drawing pixels until enough have been found.
use crate::ieee::{less32, lt32};
use crate::landmarks::marked;
use crate::pixels::{lemma_picked, lemma_picked_agree, picked, weighted};
use vstd::prelude::*;

verus! {

/// The candidates with a positive weight.
pub open spec fn positive_candidates(candidates: Seq<usize>, weights: Seq<u32>) -> Seq<usize> {
    picked(candidates.len(), weighted(weights)).map_values(|k: usize| candidates[k as int])
}

/// The weights above zero.
pub open spec fn positive_weights(weights: Seq<u32>) -> Seq<u32> {
    picked(weights.len(), weighted(weights)).map_values(|k: usize| weights[k as int])
}

/// The pixels taken after more draws: each draw takes its candidate unless
/// that has been taken before or enough have been taken.
pub open spec fn absorbed(sampled: Seq<usize>, wanted: nat, candidates: Seq<usize>, draws: Seq<usize>) -> Seq<usize>
    decreases draws.len(),
{
    if draws.len() == 0 {
        sampled
    } else {
        let before = absorbed(sampled, wanted, candidates, draws.drop_last());
        let idx = candidates[draws.last() as int];
        if before.len() < wanted && !before.contains(idx) {
            before.push(idx)
        } else {
            before
        }
    }
}

/// It does not matter in how many batches draws come.
pub proof fn lemma_batches_do_not_matter(
    sampled: Seq<usize>,
    wanted: nat,
    candidates: Seq<usize>,
    draws: Seq<usize>,
    more: Seq<usize>,
)
    ensures
        absorbed(absorbed(sampled, wanted, candidates, draws), wanted, candidates, more) == absorbed(
            sampled,
            wanted,
            candidates,
            draws + more,
        ),
    decreases more.len(),
{
    if more.len() == 0 {
        assert(draws + more =~= draws);
    } else {
        assert((draws + more).drop_last() =~= draws + more.drop_last());
        lemma_batches_do_not_matter(sampled, wanted, candidates, draws, more.drop_last());
    }
}

proof fn lemma_enough_is_enough(sampled: Seq<usize>, wanted: nat, candidates: Seq<usize>, draws: Seq<usize>)
    requires
        sampled.len() >= wanted,
    ensures
        absorbed(sampled, wanted, candidates, draws) == sampled,
    decreases draws.len(),
{
    if draws.len() > 0 {
        lemma_enough_is_enough(sampled, wanted, candidates, draws.drop_last());
    }
}

/// Draws distinct pixels from weighted candidates. The draws come from outside
/// and may repeat; a pixel is taken the first time it is drawn.
pub struct DensifySampler {
    candidates: Vec<usize>,
    weights: Vec<u32>,
    wanted: usize,
    sampled: Vec<usize>,
    start: Ghost<Seq<bool>>,
}

impl DensifySampler {
    /// The pixels that can be drawn.
    pub closed spec fn candidates(self) -> Seq<usize> {
        self.candidates@
    }

    /// The weight of each candidate, above zero.
    pub closed spec fn weights(self) -> Seq<u32> {
        self.weights@
    }

    /// How many pixels are to be taken.
    pub closed spec fn wanted(self) -> nat {
        self.wanted as nat
    }

    /// The pixels taken so far, in the order in which they were drawn.
    pub closed spec fn sampled(self) -> Seq<usize> {
        self.sampled@
    }

    /// The pixels that had a Gaussian before the first draw.
    pub closed spec fn start(self) -> Seq<bool> {
        self.start@
    }

    /// The taken pixels are distinct candidates, no more than wanted, and are
    /// exactly the pixels that were marked since the start.
    pub open spec fn wf(self, added: Seq<bool>) -> bool {
        &&& self.candidates().no_duplicates()
        &&& self.candidates().len() == self.weights().len()
        &&& forall|k: int|
            0 <= k < self.candidates().len() ==> {
                &&& (#[trigger] self.candidates()[k]) < self.start().len()
                &&& !self.start()[self.candidates()[k] as int]
            }
        &&& self.sampled().no_duplicates()
        &&& forall|k: int|
            0 <= k < self.sampled().len() ==> self.candidates().contains(
                #[trigger] self.sampled()[k],
            )
        &&& self.sampled().len() <= self.wanted() <= self.candidates().len()
        &&& added == marked(self.start(), self.sampled())
        &&& added.len() <= usize::MAX
    }

    /// Starts drawing `num_samples` pixels, or as many as have a positive
    /// weight if those are fewer.
    pub fn new(
        candidates: &Vec<usize>,
        weights: &Vec<u32>,
        num_samples: usize,
        added: &Vec<bool>,
    ) -> (sampler: Self)
        requires
            candidates@.len() == weights@.len(),
            candidates@.no_duplicates(),
            forall|k: int|
                0 <= k < candidates@.len() ==> (#[trigger] candidates@[k]) < added@.len()
                    && !added@[candidates@[k] as int],
        ensures
            sampler.wf(added@),
            sampler.start() == added@,
            sampler.candidates() == positive_candidates(candidates@, weights@),
            sampler.weights() == positive_weights(weights@),
            sampler.wanted() == vstd::math::min(
                num_samples as int,
                sampler.candidates().len() as int,
            ),
            sampler.sampled() == Seq::<usize>::empty(),
    {
        let n: usize = candidates.len();
        let pixels: usize = added.len();
        let mut kept: Vec<usize> = Vec::new();
        let mut kept_weights: Vec<u32> = Vec::new();
        let ghost pred = weighted(weights@);
        for k in 0..n
            invariant
                n == candidates@.len(),
                n == weights@.len(),
                pred == weighted(weights@),
                kept@ == picked(k as nat, pred).map_values(|k: usize| candidates@[k as int]),
                kept_weights@ == picked(k as nat, pred).map_values(|k: usize| weights@[k as int]),
        {
            if lt32(0, weights[k]) {
                kept.push(candidates[k]);
                kept_weights.push(weights[k]);
            }
            proof {
                let now = picked((k + 1) as nat, pred);
                assert(kept@ =~= now.map_values(|k: usize| candidates@[k as int]));
                assert(kept_weights@ =~= now.map_values(|k: usize| weights@[k as int]));
            }
        }
        let wanted: usize = if num_samples < kept.len() {
            num_samples
        } else {
            kept.len()
        };
        let sampler = DensifySampler {
            candidates: kept,
            weights: kept_weights,
            wanted,
            sampled: Vec::new(),
            start: Ghost(added@),
        };
        proof {
            lemma_picked(n as nat, pred);
            let ks = picked(n as nat, pred);
            assert forall|i: int, j: int| 0 <= i < kept@.len() && 0 <= j < kept@.len() && i != j implies kept@[i]
                != kept@[j] by {
                assert(ks.contains(ks[i]) && ks.contains(ks[j]));
            }
            assert forall|k: int| 0 <= k < kept@.len() implies (#[trigger] kept@[k]) < added@.len()
                && !added@[kept@[k] as int] by {
                assert(ks.contains(ks[k]));
                assert(kept@[k] == candidates@[ks[k] as int]);
            }
            assert(added@ =~= marked(added@, Seq::empty()));
        }
        sampler
    }

    /// The pixels that can be drawn, in the order of their weights.
    pub fn candidate_weights(&self) -> (weights: &Vec<u32>)
        ensures
            weights@ == self.weights(),
    {
        &self.weights
    }

    /// Whether enough pixels have been taken.
    pub fn is_done(&self) -> (done: bool)
        ensures
            done == (self.sampled().len() >= self.wanted()),
    {
        self.sampled.len() >= self.wanted
    }

    /// Takes the drawn candidate unless it has been taken before.
    pub fn offer(&mut self, draw: usize, added: &mut Vec<bool>) -> (taken: bool)
        requires
            old(self).wf(old(added)@),
            old(self).sampled().len() < old(self).wanted(),
            draw < old(self).candidates().len(),
        ensures
            final(self).wf(final(added)@),
            final(self).start() == old(self).start(),
            final(self).candidates() == old(self).candidates(),
            final(self).weights() == old(self).weights(),
            final(self).wanted() == old(self).wanted(),
            ({
                let idx = old(self).candidates()[draw as int];
                &&& taken == !old(added)@[idx as int]
                &&& taken == !old(self).sampled().contains(idx)
                &&& taken ==> final(self).sampled() == old(self).sampled().push(idx)
                &&& taken ==> final(added)@ == old(added)@.update(idx as int, true)
                &&& !taken ==> *final(self) == *old(self) && final(added)@ == old(added)@
            }),
    {
        let idx: usize = self.candidates[draw];
        let ghost before = self.sampled@;
        let ghost start = self.start@;
        proof {
            assert(self.candidates()[draw as int] == idx);
            assert(added@[idx as int] == before.contains(idx));
        }
        if !added[idx] {
            added.set(idx, true);
            self.sampled.push(idx);
            proof {
                let now = self.sampled@;
                assert(now.no_duplicates());
                assert(self.candidates().contains(idx)) by {
                    assert(self.candidates()[draw as int] == idx);
                }
                assert forall|k: int| 0 <= k < now.len() implies self.candidates().contains(
                    #[trigger] now[k],
                ) by {
                    if k < before.len() {
                        assert(now[k] == before[k]);
                    }
                }
                assert forall|i: int| 0 <= i < start.len() implies #[trigger] added@[i] == marked(
                    start,
                    now,
                )[i] by {
                    if before.contains(i as usize) {
                        let j = before.index_of(i as usize);
                        assert(now[j] == i as usize);
                    }
                    if now.contains(i as usize) {
                        let j = now.index_of(i as usize);
                        if j < before.len() {
                            assert(before[j] == i as usize);
                        }
                    }
                    assert(now[before.len() as int] == idx);
                }
                assert(added@ =~= marked(start, now));
            }
            true
        } else {
            false
        }
    }

    /// Goes through draws until enough pixels have been taken or the draws are
    /// used up.
    pub fn take_draws(&mut self, draws: &Vec<usize>, added: &mut Vec<bool>)
        requires
            old(self).wf(old(added)@),
            forall|k: int| 0 <= k < draws@.len() ==> (#[trigger] draws@[k]) < old(self).candidates().len(),
        ensures
            final(self).wf(final(added)@),
            final(added)@.len() == old(added)@.len(),
            forall|i: int|
                0 <= i < final(added)@.len() ==> #[trigger] final(added)@[i] == (old(self).start()[i]
                    || final(self).sampled().contains(i as usize)),
            final(self).start() == old(self).start(),
            final(self).candidates() == old(self).candidates(),
            final(self).weights() == old(self).weights(),
            final(self).wanted() == old(self).wanted(),
            final(self).sampled() == absorbed(
                old(self).sampled(),
                old(self).wanted(),
                old(self).candidates(),
                draws@,
            ),
    {
        let ghost before = *self;
        let n: usize = draws.len();
        for k in 0..n
            invariant
                n == draws@.len(),
                self.wf(added@),
                self.start() == before.start(),
                self.candidates() == before.candidates(),
                self.weights() == before.weights(),
                self.wanted() == before.wanted(),
                forall|k: int| 0 <= k < draws@.len() ==> (#[trigger] draws@[k]) < before.candidates().len(),
                self.sampled() == absorbed(
                    before.sampled(),
                    before.wanted(),
                    before.candidates(),
                    draws@.take(k as int),
                ),
        {
            proof {
                assert(draws@.take(k + 1).drop_last() =~= draws@.take(k as int));
            }
            if !self.is_done() {
                self.offer(draws[k], added);
            }
        }
        assert(draws@.take(n as int) =~= draws@);
    }

    /// The pixels taken, in the order in which they were drawn.
    pub fn into_sampled(self) -> (sampled: Vec<usize>)
        ensures
            sampled@ == self.sampled(),
    {
        self.sampled
    }

    /// Drawing never gets stuck: until enough pixels have been taken there is
    /// a candidate whose draw would be taken.
    pub proof fn lemma_never_stuck(self, added: Seq<bool>)
        requires
            self.wf(added),
            self.sampled().len() < self.wanted(),
        ensures
            exists|draw: int|
                0 <= draw < self.candidates().len() && !added[#[trigger] self.candidates()[draw] as int],
    {
        if forall|draw: int|
            0 <= draw < self.candidates().len() ==> added[#[trigger] self.candidates()[draw] as int] {
            let c = self.candidates();
            let s = self.sampled();
            assert forall|x: usize| c.to_set().contains(x) implies s.to_set().contains(x) by {
                let k = c.index_of(x);
                assert(added[c[k] as int]);
            }
            c.unique_seq_to_set();
            s.unique_seq_to_set();
            vstd::set_lib::lemma_len_subset(c.to_set(), s.to_set());
            assert(false);
        }
    }
}

/// Densification is as deterministic as its draws: two samplers that start alike
/// and are given the same draws take the same pixels in the same order and mark
/// the same pixels, even if one goes on drawing after it has enough.
pub proof fn lemma_equal_draws_take_equal_pixels(
    a: DensifySampler,
    added_a: Seq<bool>,
    b: DensifySampler,
    added_b: Seq<bool>,
    draws: Seq<usize>,
    more: Seq<usize>,
)
    requires
        a.wf(added_a),
        b.wf(added_b),
        a.start() == b.start(),
        a.candidates() == b.candidates(),
        a.wanted() == b.wanted(),
        a.sampled() == absorbed(Seq::empty(), a.wanted(), a.candidates(), draws),
        a.sampled().len() >= a.wanted(),
        b.sampled() == absorbed(Seq::empty(), b.wanted(), b.candidates(), draws + more),
    ensures
        a.sampled() == b.sampled(),
        added_a == added_b,
{
    lemma_batches_do_not_matter(Seq::empty(), a.wanted(), a.candidates(), draws, more);
    lemma_enough_is_enough(a.sampled(), a.wanted(), a.candidates(), more);
}

/// The candidates that can be drawn are those that weigh something, each with
/// its own weight and in their order.
pub proof fn lemma_candidates_keep_their_weights(candidates: Seq<usize>, weights: Seq<u32>)
    requires
        candidates.len() == weights.len(),
        weights.len() <= usize::MAX,
    ensures
        ({
            let places = picked(weights.len(), |k: usize| less32(0, weights[k as int]));
            &&& positive_candidates(candidates, weights).len() == places.len()
            &&& positive_weights(weights).len() == places.len()
            &&& forall|j: int|
                0 <= j < places.len() ==> {
                    let k = (#[trigger] places[j]) as int;
                    &&& 0 <= k < weights.len()
                    &&& positive_candidates(candidates, weights)[j] == candidates[k]
                    &&& positive_weights(weights)[j] == weights[k]
                }
        }),
{
    let above = |k: usize| less32(0, weights[k as int]);
    assert forall|k: usize| k < weights.len() implies #[trigger] above(k) == weighted(weights)(k) by {}
    lemma_picked_agree(weights.len(), above, weighted(weights));
    lemma_picked(weights.len(), above);
    let places = picked(weights.len(), above);
    assert forall|j: int| 0 <= j < places.len() implies (#[trigger] places[j]) < weights.len() by {
        assert(places.contains(places[j]));
    }
}

/// A draw takes its candidate if that has not been taken and more are wanted,
/// and is passed over otherwise. Without draws nothing is taken.
pub proof fn lemma_draws_are_taken_in_turn(
    sampled: Seq<usize>,
    wanted: nat,
    candidates: Seq<usize>,
    draws: Seq<usize>,
    next: usize,
)
    ensures
        absorbed(sampled, wanted, candidates, Seq::empty()) == sampled,
        ({
            let before = absorbed(sampled, wanted, candidates, draws);
            let pixel = candidates[next as int];
            absorbed(sampled, wanted, candidates, draws.push(next)) == (if before.len() < wanted && (forall|i: int|
                0 <= i < before.len() ==> #[trigger] before[i] != pixel) {
                before + seq![pixel]
            } else {
                before
            })
        }),
{
    assert(draws.push(next).drop_last() =~= draws);
    let before = absorbed(sampled, wanted, candidates, draws);
    let pixel = candidates[next as int];
    assert(before.push(pixel) =~= before + seq![pixel]);
    assert(before.contains(pixel) <==> !(forall|i: int| 0 <= i < before.len() ==> #[trigger] before[i] != pixel));
}

} // verus!
