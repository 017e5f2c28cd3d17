//! Which training view comes next.
use crate::chance::{chosen, draw_item, draw_number, ranged};
use crate::text::{
    behind_last, decimal, last_piece, lemma_decimal_digits, lemma_decimal_is_read_back, lemma_last_piece, parse_usize,
    parsed_unsigned, same_text, starts, starts_with,
};
use rand::rngs::StdRng;
use vstd::prelude::*;

verus! {

/// Identifies a frame of the recording.
pub type FrameId = u64;

/// How training views are sampled.
#[derive(Clone, Copy, Debug, PartialEq, Eq)]
pub enum SamplingStrategy {
    /// Every view is equally likely.
    Random,
    /// The most recent views are equally likely.
    SlidingWindow(usize),
    /// Views that were trained on less often are more likely.
    Weighted,
}

/// The strategy that a name stands for: `random`, `weighted`, or a name that
/// begins with `sliding` and ends in the window size behind a dash.
pub open spec fn named_strategy(name: Seq<char>) -> Option<SamplingStrategy> {
    if name == "random"@ {
        Some(SamplingStrategy::Random)
    } else if starts(name, "sliding"@) {
        match parsed_unsigned(last_piece(name, '-'), usize::MAX as nat) {
            Some(n) => Some(SamplingStrategy::SlidingWindow(n as usize)),
            None => None,
        }
    } else if name == "weighted"@ {
        Some(SamplingStrategy::Weighted)
    } else {
        None
    }
}

/// Reads the name of a strategy.
pub fn parse_strategy(name: &str) -> (strategy: Option<SamplingStrategy>)
    ensures
        strategy == named_strategy(name@),
{
    if same_text(name, "random") {
        Some(SamplingStrategy::Random)
    } else if starts_with(name, "sliding") {
        match parse_usize(behind_last(name, '-')) {
            Some(n) => Some(SamplingStrategy::SlidingWindow(n)),
            None => None,
        }
    } else if same_text(name, "weighted") {
        Some(SamplingStrategy::Weighted)
    } else {
        None
    }
}

/// Something that knows which frames can be trained on and picks among them.
///
/// `drawn` is a place that was drawn outside, from the weights of the frames.
/// Only the weighted strategy needs it.
pub trait ViewSampler: Sized {
    /// The frames that were added, oldest first.
    spec fn frames(&self) -> Seq<FrameId>;

    /// Whether a frame can be picked.
    spec fn can_sample(&self, drawn: Option<usize>) -> bool;

    /// Whether the strategy allows to pick this frame.
    spec fn allows(&self, drawn: Option<usize>, frame_id: FrameId) -> bool;

    /// Whether the frame is what a draw with the generator gave, among all the
    /// frames that the strategy allows.
    spec fn draws(&self, drawn: Option<usize>, rng: &mut StdRng, frame_id: FrameId) -> bool;

    /// Picks a frame.
    fn sample(&mut self, rng: &mut StdRng, drawn: Option<usize>) -> (frame_id: FrameId)
        requires
            old(self).can_sample(drawn),
        ensures
            old(self).allows(drawn, frame_id),
            old(self).frames().contains(frame_id),
            final(self).frames() == old(self).frames(),
            exists|r: &mut StdRng| #[trigger]
                old(self).draws(drawn, r, frame_id) && *r == *old(rng) && *final(r) == *final(rng),
    ;

    /// Makes another frame available.
    fn added_new_item(&mut self, frame_id: FrameId)
        ensures
            final(self).frames() == old(self).frames().push(frame_id),
    ;
}

/// Picks every frame equally often.
pub struct RandomViewSampler {
    frame_ids: Vec<FrameId>,
}

impl RandomViewSampler {
    /// A sampler without frames.
    pub fn new() -> (sampler: Self)
        ensures
            sampler.frames() == Seq::<FrameId>::empty(),
    {
        RandomViewSampler { frame_ids: Vec::new() }
    }
}

impl ViewSampler for RandomViewSampler {
    closed spec fn frames(&self) -> Seq<FrameId> {
        self.frame_ids@
    }

    open spec fn can_sample(&self, drawn: Option<usize>) -> bool {
        self.frames().len() > 0
    }

    open spec fn allows(&self, drawn: Option<usize>, frame_id: FrameId) -> bool {
        self.frames().contains(frame_id)
    }

    open spec fn draws(&self, drawn: Option<usize>, rng: &mut StdRng, frame_id: FrameId) -> bool {
        exists|items: &Vec<FrameId>| #[trigger] chosen(items, rng, Some(&frame_id)) && items@ == self.frames()
    }

    fn sample(&mut self, rng: &mut StdRng, drawn: Option<usize>) -> (frame_id: FrameId)
        ensures
            exists|items: &Vec<FrameId>, r: &mut StdRng|
                {
                    &&& #[trigger] chosen(items, r, Some(&frame_id))
                    &&& items@ == old(self).frames()
                    &&& *r == *old(rng)
                    &&& *final(r) == *final(rng)
                },
    {
        let frame_id: FrameId = *draw_item(&self.frame_ids, rng).unwrap();
        proof {
            let ghost r = choose|r: &mut StdRng| #[trigger]
                chosen(&self.frame_ids, r, Some(&frame_id)) && *r == *old(rng) && *final(r) == *rng;
            assert(old(self).draws(drawn, r, frame_id));
        }
        frame_id
    }

    fn added_new_item(&mut self, frame_id: FrameId) {
        self.frame_ids.push(frame_id);
    }
}

/// Picks among the most recent frames.
pub struct SlidingWindowViewSampler {
    frame_ids: Vec<FrameId>,
    window_size: usize,
}

impl SlidingWindowViewSampler {
    /// How many of the most recent frames may be picked.
    pub closed spec fn window_size(&self) -> usize {
        self.window_size
    }

    /// The frames that may be picked.
    pub open spec fn window(&self) -> Seq<FrameId> {
        if self.frames().len() > self.window_size() {
            self.frames().skip(self.frames().len() - self.window_size())
        } else {
            self.frames()
        }
    }

    /// A sampler without frames.
    pub fn new(window_size: usize) -> (sampler: Self)
        ensures
            sampler.frames() == Seq::<FrameId>::empty(),
            sampler.window_size() == window_size,
    {
        SlidingWindowViewSampler { frame_ids: Vec::new(), window_size }
    }
}

impl ViewSampler for SlidingWindowViewSampler {
    closed spec fn frames(&self) -> Seq<FrameId> {
        self.frame_ids@
    }

    open spec fn can_sample(&self, drawn: Option<usize>) -> bool {
        self.frames().len() > 0 && self.window_size() > 0
    }

    open spec fn allows(&self, drawn: Option<usize>, frame_id: FrameId) -> bool {
        self.window().contains(frame_id)
    }

    open spec fn draws(&self, drawn: Option<usize>, rng: &mut StdRng, frame_id: FrameId) -> bool {
        exists|oldest: usize, count: usize, i: usize|
            {
                &&& #[trigger] ranged(oldest, count, rng, i)
                &&& count == self.frames().len()
                &&& oldest == vstd::math::max(0, count - self.window_size())
                &&& frame_id == self.frames()[i as int]
            }
    }

    fn sample(&mut self, rng: &mut StdRng, drawn: Option<usize>) -> (frame_id: FrameId)
        ensures
            final(self).window_size() == old(self).window_size(),
            exists|oldest: usize, count: usize, r: &mut StdRng, i: usize|
                {
                    &&& #[trigger] ranged(oldest, count, r, i)
                    &&& count == old(self).frames().len()
                    &&& oldest == vstd::math::max(0, count - old(self).window_size())
                    &&& frame_id == old(self).frames()[i as int]
                    &&& *r == *old(rng)
                    &&& *final(r) == *final(rng)
                },
    {
        let count: usize = self.frame_ids.len();
        let oldest: usize = count.saturating_sub(self.window_size);
        let idx: usize = draw_number(oldest, count, rng);
        assert(self.window()[idx - oldest] == self.frame_ids@[idx as int]);
        let frame_id: FrameId = self.frame_ids[idx];
        proof {
            let ghost r = choose|r: &mut StdRng| #[trigger]
                ranged(oldest, count, r, idx) && *r == *old(rng) && *final(r) == *rng;
            assert(old(self).draws(drawn, r, frame_id));
        }
        frame_id
    }

    fn added_new_item(&mut self, frame_id: FrameId)
        ensures
            final(self).window_size() == old(self).window_size(),
    {
        self.frame_ids.push(frame_id);
    }
}

/// The window slides: once a new frame has been added it can be picked, and of
/// the frames before it only as many as the window still has room for.
pub proof fn lemma_window_slides(before: SlidingWindowViewSampler, after: SlidingWindowViewSampler, frame_id: FrameId)
    requires
        after.frames() == before.frames().push(frame_id),
        after.window_size() == before.window_size(),
        before.window_size() > 0,
    ensures
        after.allows(None, frame_id),
        after.window().last() == frame_id,
        after.window().len() == vstd::math::min(
            before.frames().len() as int + 1,
            before.window_size() as int,
        ),
{
    let w = after.window();
    assert(w[w.len() - 1] == frame_id);
}

/// From here on a binary64 counter that is raised by one is rounded back to
/// its old value.
pub const MAX_COUNT: u64 = 0x20_0000_0000_0000;

/// A counter raised by one.
pub open spec fn counted(n: u64) -> u64 {
    if n < MAX_COUNT {
        (n + 1) as u64
    } else {
        n
    }
}

/// Picks frames with weights that fall with the number of times they were
/// picked: a frame that was picked `n` times has the weight `1 / (n + 1)`.
/// The places are drawn outside, from the weights.
pub struct TrainFrequencyWeightedViewSampler {
    entries: Vec<(FrameId, u64)>,
}

impl TrainFrequencyWeightedViewSampler {
    /// How often each frame was picked.
    pub closed spec fn counts(&self) -> Seq<u64> {
        self.entries@.map_values(|entry: (FrameId, u64)| entry.1)
    }

    #[verifier::type_invariant]
    spec fn inv(&self) -> bool {
        forall|i: int| 0 <= i < self.entries@.len() ==> (#[trigger] self.entries@[i]).1 <= MAX_COUNT
    }

    /// A sampler without frames.
    pub fn new() -> (sampler: Self)
        ensures
            sampler.frames() == Seq::<FrameId>::empty(),
            sampler.counts() == Seq::<u64>::empty(),
    {
        let sampler = TrainFrequencyWeightedViewSampler { entries: Vec::new() };
        assert(sampler.frames() =~= Seq::empty());
        assert(sampler.counts() =~= Seq::empty());
        sampler
    }

    /// The reciprocals of the weights of all frames, in their order.
    pub fn inverse_weights(&self) -> (weights: Vec<u64>)
        ensures
            weights@.len() == self.frames().len(),
            weights@.len() == self.counts().len(),
            forall|i: int|
                0 <= i < weights@.len() ==> #[trigger] weights@[i] == self.counts()[i] + 1,
    {
        proof {
            use_type_invariant(self);
        }
        let n: usize = self.entries.len();
        let mut weights: Vec<u64> = Vec::new();
        for i in 0..n
            invariant
                n == self.entries@.len(),
                weights@.len() == i,
                forall|k: int|
                    0 <= k < self.entries@.len() ==> (#[trigger] self.entries@[k]).1 <= MAX_COUNT,
                forall|k: int| 0 <= k < i ==> #[trigger] weights@[k] == self.entries@[k].1 + 1,
        {
            weights.push(self.entries[i].1 + 1);
        }
        weights
    }
}

impl ViewSampler for TrainFrequencyWeightedViewSampler {
    closed spec fn frames(&self) -> Seq<FrameId> {
        self.entries@.map_values(|entry: (FrameId, u64)| entry.0)
    }

    open spec fn can_sample(&self, drawn: Option<usize>) -> bool {
        drawn.is_some() && drawn->0 < self.frames().len()
    }

    open spec fn allows(&self, drawn: Option<usize>, frame_id: FrameId) -> bool {
        frame_id == self.frames()[drawn->0 as int]
    }

    open spec fn draws(&self, drawn: Option<usize>, rng: &mut StdRng, frame_id: FrameId) -> bool {
        frame_id == self.frames()[drawn->0 as int]
    }

    fn sample(&mut self, rng: &mut StdRng, drawn: Option<usize>) -> (frame_id: FrameId)
        ensures
            frame_id == old(self).frames()[drawn->0 as int],
            *final(rng) == *old(rng),
            final(self).counts() == old(self).counts().update(
                drawn->0 as int,
                counted(old(self).counts()[drawn->0 as int]),
            ),
    {
        proof {
            use_type_invariant(&*self);
        }
        let idx: usize = drawn.unwrap();
        let mut entries: Vec<(FrameId, u64)> = Vec::new();
        std::mem::swap(&mut entries, &mut self.entries);
        let (frame_id, count): (FrameId, u64) = entries[idx];
        if count < MAX_COUNT {
            entries.set(idx, (frame_id, count + 1));
        }
        self.entries = entries;
        proof {
            assert(self.frames() =~= old(self).frames());
            assert(self.counts() =~= old(self).counts().update(idx as int, counted(count)));
            assert(old(self).frames()[idx as int] == frame_id);
            assert(old(self).draws(drawn, old(rng), frame_id));
        }
        frame_id
    }

    fn added_new_item(&mut self, frame_id: FrameId)
        ensures
            final(self).counts() == old(self).counts().push(0),
    {
        proof {
            use_type_invariant(&*self);
        }
        let mut entries: Vec<(FrameId, u64)> = Vec::new();
        std::mem::swap(&mut entries, &mut self.entries);
        entries.push((frame_id, 0));
        self.entries = entries;
        assert(self.frames() =~= old(self).frames().push(frame_id));
        assert(self.counts() =~= old(self).counts().push(0));
    }
}

/// A sampler of any strategy.
pub enum AnyViewSampler {
    Random(RandomViewSampler),
    SlidingWindow(SlidingWindowViewSampler),
    Weighted(TrainFrequencyWeightedViewSampler),
}

impl AnyViewSampler {
    /// The strategy of the sampler.
    pub open spec fn strategy(&self) -> SamplingStrategy {
        match self {
            AnyViewSampler::Random(_) => SamplingStrategy::Random,
            AnyViewSampler::SlidingWindow(s) => SamplingStrategy::SlidingWindow(s.window_size()),
            AnyViewSampler::Weighted(_) => SamplingStrategy::Weighted,
        }
    }

    /// How often each frame was picked. Only the weighted strategy counts.
    pub open spec fn counts(&self) -> Seq<u64> {
        match self {
            AnyViewSampler::Weighted(s) => s.counts(),
            _ => Seq::empty(),
        }
    }

    /// How many frames there are.
    pub fn count(&self) -> (count: usize)
        ensures
            count == self.frames().len(),
    {
        match self {
            AnyViewSampler::Random(s) => s.frame_ids.len(),
            AnyViewSampler::SlidingWindow(s) => s.frame_ids.len(),
            AnyViewSampler::Weighted(s) => s.entries.len(),
        }
    }

    /// The reciprocals of the weights from which a place has to be drawn, if
    /// the strategy is the weighted one.
    pub fn inverse_weights(&self) -> (weights: Option<Vec<u64>>)
        ensures
            weights.is_some() == (self.strategy() is Weighted),
            weights.is_some() ==> {
                &&& weights->0@.len() == self.frames().len()
                &&& weights->0@.len() == self.counts().len()
                &&& forall|i: int|
                    0 <= i < weights->0@.len() ==> #[trigger] weights->0@[i] == self.counts()[i] + 1
            },
    {
        match self {
            AnyViewSampler::Weighted(s) => Some(s.inverse_weights()),
            _ => None,
        }
    }
}

impl ViewSampler for AnyViewSampler {
    open spec fn frames(&self) -> Seq<FrameId> {
        match self {
            AnyViewSampler::Random(s) => s.frames(),
            AnyViewSampler::SlidingWindow(s) => s.frames(),
            AnyViewSampler::Weighted(s) => s.frames(),
        }
    }

    open spec fn can_sample(&self, drawn: Option<usize>) -> bool {
        match self {
            AnyViewSampler::Random(s) => s.can_sample(drawn),
            AnyViewSampler::SlidingWindow(s) => s.can_sample(drawn),
            AnyViewSampler::Weighted(s) => s.can_sample(drawn),
        }
    }

    open spec fn allows(&self, drawn: Option<usize>, frame_id: FrameId) -> bool {
        match self {
            AnyViewSampler::Random(s) => s.allows(drawn, frame_id),
            AnyViewSampler::SlidingWindow(s) => s.allows(drawn, frame_id),
            AnyViewSampler::Weighted(s) => s.allows(drawn, frame_id),
        }
    }

    open spec fn draws(&self, drawn: Option<usize>, rng: &mut StdRng, frame_id: FrameId) -> bool {
        match self {
            AnyViewSampler::Random(s) => s.draws(drawn, rng, frame_id),
            AnyViewSampler::SlidingWindow(s) => s.draws(drawn, rng, frame_id),
            AnyViewSampler::Weighted(s) => s.draws(drawn, rng, frame_id),
        }
    }

    fn sample(&mut self, rng: &mut StdRng, drawn: Option<usize>) -> (frame_id: FrameId)
        ensures
            final(self).strategy() == old(self).strategy(),
            old(self).strategy() is Weighted ==> final(self).counts() == old(self).counts().update(
                drawn->0 as int,
                counted(old(self).counts()[drawn->0 as int]),
            ),
    {
        let frame_id: FrameId = match self {
            AnyViewSampler::Random(s) => s.sample(rng, drawn),
            AnyViewSampler::SlidingWindow(s) => s.sample(rng, drawn),
            AnyViewSampler::Weighted(s) => s.sample(rng, drawn),
        };
        proof {
            let ghost r = match *old(self) {
                AnyViewSampler::Random(s) => choose|r: &mut StdRng| #[trigger]
                    s.draws(drawn, r, frame_id) && *r == *old(rng) && *final(r) == *rng,
                AnyViewSampler::SlidingWindow(s) => choose|r: &mut StdRng| #[trigger]
                    s.draws(drawn, r, frame_id) && *r == *old(rng) && *final(r) == *rng,
                AnyViewSampler::Weighted(s) => choose|r: &mut StdRng| #[trigger]
                    s.draws(drawn, r, frame_id) && *r == *old(rng) && *final(r) == *rng,
            };
            assert(old(self).draws(drawn, r, frame_id));
        }
        frame_id
    }

    fn added_new_item(&mut self, frame_id: FrameId)
        ensures
            final(self).strategy() == old(self).strategy(),
            old(self).strategy() is Weighted ==> final(self).counts() == old(self).counts().push(0),
    {
        match self {
            AnyViewSampler::Random(s) => s.added_new_item(frame_id),
            AnyViewSampler::SlidingWindow(s) => s.added_new_item(frame_id),
            AnyViewSampler::Weighted(s) => s.added_new_item(frame_id),
        }
    }
}

/// A sampler without frames for the named strategy.
pub fn create_view_sampler(view_sampling_strategy: &str) -> (sampler: AnyViewSampler)
    requires
        named_strategy(view_sampling_strategy@).is_some(),
    ensures
        sampler.strategy() == named_strategy(view_sampling_strategy@)->0,
        sampler.frames() == Seq::<FrameId>::empty(),
        sampler.counts() == Seq::<u64>::empty(),
{
    match parse_strategy(view_sampling_strategy).unwrap() {
        SamplingStrategy::Random => AnyViewSampler::Random(RandomViewSampler::new()),
        SamplingStrategy::SlidingWindow(window_size) => AnyViewSampler::SlidingWindow(
            SlidingWindowViewSampler::new(window_size),
        ),
        SamplingStrategy::Weighted => AnyViewSampler::Weighted(
            TrainFrequencyWeightedViewSampler::new(),
        ),
    }
}

/// The strategies have names of their own: `random`, `weighted`, and `sliding`
/// with what follows it, as long as a number stands behind its last dash.
pub proof fn lemma_strategies_have_names(middle: Seq<char>, size: nat)
    requires
        size <= usize::MAX,
    ensures
        named_strategy("random"@) == Some(SamplingStrategy::Random),
        named_strategy("weighted"@) == Some(SamplingStrategy::Weighted),
        named_strategy("sliding"@ + middle + seq!['-'] + decimal(size)) == Some(
            SamplingStrategy::SlidingWindow(size as usize),
        ),
        forall|name: Seq<char>|
            name != "random"@ && name != "weighted"@ && !"sliding"@.is_prefix_of(name) ==> (#[trigger] named_strategy(
                name,
            )).is_none(),
        forall|name: Seq<char>|
            "sliding"@.is_prefix_of(name) ==> (#[trigger] named_strategy(name)).is_some() == parsed_unsigned(
                last_piece(name, '-'),
                usize::MAX as nat,
            ).is_some(),
{
    reveal_strlit("random");
    reveal_strlit("weighted");
    reveal_strlit("sliding");
    assert("weighted"@[0] != "random"@[0]);
    assert("sliding"@[0] != "random"@[0]);
    assert("weighted"@[0] != "sliding"@[0]);
    let name = "sliding"@ + middle + seq!['-'] + decimal(size);
    assert(name[0] == "sliding"@[0]);
    assert("sliding"@.is_prefix_of(name));
    lemma_decimal_digits(size);
    let k = "sliding"@.len() + middle.len() + 1;
    assert forall|i: int| k <= i < name.len() implies name[i] != '-' by {
        assert(name[i] == decimal(size)[i - k]);
    }
    assert(name[k - 1] == '-');
    lemma_last_piece(name, '-', k as int);
    assert(name.skip(k as int) =~= decimal(size));
    lemma_decimal_is_read_back(size, usize::MAX as nat);
}

/// The window holds the latest frames, as many as its size allows, in their
/// order.
pub proof fn lemma_window_holds_the_latest(sampler: SlidingWindowViewSampler, i: int)
    requires
        0 <= i < sampler.window().len(),
    ensures
        sampler.window().len() == vstd::math::min(sampler.frames().len() as int, sampler.window_size() as int),
        sampler.window()[i] == sampler.frames()[sampler.frames().len() - sampler.window().len() + i],
{
}

/// A counter goes up by one, as long as a binary64 number can tell.
pub proof fn lemma_counts_go_up(n: u64)
    ensures
        n < 9_007_199_254_740_992 ==> counted(n) == n + 1,
        n >= 9_007_199_254_740_992 ==> counted(n) == n,
{
}

/// Whatever the strategy, the next frame is drawn among all that it allows:
/// among all frames, among the latest as far as the window reaches, or at the
/// place that was drawn from the weights.
pub proof fn lemma_frames_are_drawn_by_strategy(sampler: AnyViewSampler, drawn: Option<usize>, frame_id: FrameId)
    ensures
        forall|rng: &mut StdRng| #[trigger]
            sampler.draws(drawn, rng, frame_id) ==> match sampler.strategy() {
                SamplingStrategy::Random => exists|items: &Vec<FrameId>| #[trigger]
                    chosen(items, rng, Some(&frame_id)) && items@ == sampler.frames(),
                SamplingStrategy::SlidingWindow(size) => exists|oldest: usize, count: usize, i: usize|
                    {
                        &&& #[trigger] ranged(oldest, count, rng, i)
                        &&& count == sampler.frames().len()
                        &&& oldest == vstd::math::max(0, count - size)
                        &&& frame_id == sampler.frames()[i as int]
                    },
                SamplingStrategy::Weighted => frame_id == sampler.frames()[drawn->0 as int],
            },
{
}

/// A frame can be picked as soon as there is one: by the weighted strategy at
/// any place that there is, in a window unless that has no room.
pub proof fn lemma_frames_can_be_picked(sampler: AnyViewSampler, drawn: Option<usize>)
    requires
        sampler.frames().len() > 0,
    ensures
        match sampler.strategy() {
            SamplingStrategy::Random => sampler.can_sample(drawn),
            SamplingStrategy::SlidingWindow(size) => size > 0 ==> sampler.can_sample(drawn),
            SamplingStrategy::Weighted => drawn.is_some() && drawn->0 < sampler.frames().len() ==> sampler.can_sample(
                drawn,
            ),
        },
{
}

} // verus!
