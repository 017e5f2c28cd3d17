//! Feeding a trainer with views that become available over time.
use crate::camera::Camera;
use crate::chance::{lemma_draws_stay_inside, numbered_generator, seed_from_u64, shuffle_items, shuffled};
use crate::database::{AlphaMode, SceneBatch};
use crate::image_cache::{inserts, ImageCache};
use crate::raster::{share, RasterImage};
use crate::text::{
    before_first, decimal, first_piece, lemma_decimal_is_read_back, lemma_first_piece, parse_usize,
    parsed_unsigned,
};
use rand::rngs::StdRng;
use std::sync::Arc;
use vstd::prelude::*;

verus! {

/// A view that can be loaded: the name of its image, how its alpha is read,
/// and its camera.
pub struct LoadableView {
    pub image_name: String,
    pub alpha_mode: AlphaMode,
    pub camera: Camera,
}

/// Whether a name comes before another, character by character.
pub open spec fn name_less(a: Seq<char>, b: Seq<char>) -> bool
    decreases a.len(),
{
    if b.len() == 0 {
        false
    } else if a.len() == 0 {
        true
    } else if a[0] != b[0] {
        a[0] < b[0]
    } else {
        name_less(a.drop_first(), b.drop_first())
    }
}

proof fn lemma_name_total(a: Seq<char>, b: Seq<char>)
    ensures
        name_less(a, b) || name_less(b, a) || a == b,
        !(name_less(a, b) && name_less(b, a)),
        a == b ==> !name_less(a, b),
    decreases a.len(),
{
    if a.len() > 0 && b.len() > 0 && a[0] == b[0] {
        lemma_name_total(a.drop_first(), b.drop_first());
        if a.drop_first() == b.drop_first() {
            assert(a =~= seq![a[0]] + a.drop_first());
            assert(b =~= seq![b[0]] + b.drop_first());
        }
    } else if a.len() == 0 && b.len() == 0 {
        assert(a =~= b);
    }
}

proof fn lemma_name_transitive(a: Seq<char>, b: Seq<char>, c: Seq<char>)
    requires
        name_less(a, b),
        name_less(b, c),
    ensures
        name_less(a, c),
    decreases a.len(),
{
    if a.len() > 0 && a[0] == b[0] && b[0] == c[0] {
        lemma_name_transitive(a.drop_first(), b.drop_first(), c.drop_first());
    }
}

/// Whether a name comes before another.
fn name_comes_first(a: &str, b: &str) -> (less: bool)
    ensures
        less == name_less(a@, b@),
{
    let n: usize = a.unicode_len();
    let m: usize = b.unicode_len();
    let mut i: usize = 0;
    assert(a@.skip(0) =~= a@);
    assert(b@.skip(0) =~= b@);
    while i < n && i < m
        invariant
            n == a@.len(),
            m == b@.len(),
            i <= n,
            i <= m,
            name_less(a@, b@) == name_less(a@.skip(i as int), b@.skip(i as int)),
        decreases n - i,
    {
        let x: char = a.get_char(i);
        let y: char = b.get_char(i);
        assert(a@.skip(i as int)[0] == x);
        assert(b@.skip(i as int)[0] == y);
        if x != y {
            return x < y;
        }
        assert(a@.skip(i as int).drop_first() =~= a@.skip(i + 1));
        assert(b@.skip(i as int).drop_first() =~= b@.skip(i + 1));
        i = i + 1;
    }
    i < m
}

/// Whether view `a` comes before view `b`: by name, and among equal names by
/// position.
pub open spec fn view_before(views: Seq<Arc<LoadableView>>, a: usize, b: usize) -> bool {
    let x = views[a as int].image_name@;
    let y = views[b as int].image_name@;
    name_less(x, y) || (x == y && a < b)
}

/// Whether the order lists the first `n` views, each once, by name and among
/// equal names by position.
pub open spec fn is_name_order(order: Seq<usize>, views: Seq<Arc<LoadableView>>, n: nat) -> bool {
    &&& order.len() == n
    &&& forall|p: int| 0 <= p < order.len() ==> (#[trigger] order[p]) < n
    &&& forall|p: int, q: int|
        0 <= p < q < order.len() ==> view_before(views, #[trigger] order[p], #[trigger] order[q])
}

/// Orders views by name. Views of the same name stay in their order.
fn name_order(views: &Vec<Arc<LoadableView>>) -> (order: Vec<usize>)
    ensures
        is_name_order(order@, views@, views@.len()),
{
    let n: usize = views.len();
    let mut order: Vec<usize> = Vec::new();
    for i in 0..n
        invariant
            n == views@.len(),
            is_name_order(order@, views@, i as nat),
    {
        let mut p: usize = order.len();
        while p > 0 && name_comes_first(views[i].image_name.as_str(), views[order[p - 1]].image_name.as_str())
            invariant
                p <= order@.len(),
                i < views@.len(),
                is_name_order(order@, views@, i as nat),
                forall|q: int|
                    p <= q < order@.len() ==> name_less(
                        views@[i as int].image_name@,
                        views@[(#[trigger] order@[q]) as int].image_name@,
                    ),
            decreases p,
        {
            p = p - 1;
        }
        let ghost before = order@;
        order.insert(p, i);
        proof {
            assert(order@ =~= before.insert(p as int, i));
            assert forall|a: int, b: int| 0 <= a < b < order@.len() implies view_before(
                views@,
                #[trigger] order@[a],
                #[trigger] order@[b],
            ) by {
                let a0 = if a < p {
                    a
                } else {
                    a - 1
                };
                let b0 = if b < p {
                    b
                } else {
                    b - 1
                };
                if b == p {
                    let last = before[p - 1];
                    assert(order@[a] == before[a]);
                    lemma_name_total(views@[last as int].image_name@, views@[i as int].image_name@);
                    assert(view_before(views@, last, i));
                    if a < p - 1 {
                        assert(view_before(views@, before[a], last));
                        let x = views@[before[a] as int].image_name@;
                        let y = views@[last as int].image_name@;
                        let z = views@[i as int].image_name@;
                        if name_less(x, y) && name_less(y, z) {
                            lemma_name_transitive(x, y, z);
                        }
                    }
                } else if a == p {
                    assert(order@[b] == before[b0]);
                } else {
                    assert(order@[a] == before[a0]);
                    assert(order@[b] == before[b0]);
                    assert(view_before(views@, before[a0], before[b0]));
                }
            }
            assert forall|q: int| 0 <= q < order@.len() implies (#[trigger] order@[q]) < i + 1 by {
                if q < p {
                    assert(order@[q] == before[q]);
                } else if q > p {
                    assert(order@[q] == before[q - 1]);
                }
            }
        }
    }
    order
}

/// The time in the name of a view: the number before the first dot.
pub open spec fn named_time(view: LoadableView) -> Option<nat> {
    parsed_unsigned(first_piece(view.image_name@, '.'), usize::MAX as nat)
}

/// The time in the name of a view.
fn time_of(view: &LoadableView) -> (time: usize)
    requires
        named_time(*view).is_some(),
    ensures
        time == named_time(*view)->0,
{
    parse_usize(before_first(view.image_name.as_str(), '.')).unwrap()
}

/// How many views are there from the start.
pub const FIRST_VIEWS: usize = 5;

/// How many loader tasks share an actor.
pub const TASKS_PER_ACTOR: usize = 2;

/// How many views a loader task picks before it shuffles again.
pub const EPOCH: usize = 20;

/// Whether the first name holds a time, and so does every name behind those of
/// the views that are there from the start, none of them an earlier one.
pub open spec fn timed_in_order(order: Seq<usize>, views: Seq<Arc<LoadableView>>) -> bool {
    let first = named_time(*views[order[0] as int]);
    &&& first.is_some()
    &&& forall|p: int|
        FIRST_VIEWS <= p < order.len() ==> {
            let time = named_time(*views[(#[trigger] order[p]) as int]);
            time.is_some() && first->0 <= time->0
        }
}

/// Whether the names, in their order, hold the times that are needed.
pub open spec fn timed(views: Seq<Arc<LoadableView>>) -> bool {
    forall|order: Seq<usize>| #[trigger] is_name_order(order, views, views.len()) ==> timed_in_order(order, views)
}

/// The views in the order of their names; those up to a point have been
/// released for training.
pub struct IncrementalSceneLoader {
    views: Vec<Arc<LoadableView>>,
    released: usize,
    first_ts: usize,
}

impl IncrementalSceneLoader {
    /// All views, in the order of their names.
    pub closed spec fn views(self) -> Seq<Arc<LoadableView>> {
        self.views@
    }

    /// How many of them have been released.
    pub closed spec fn released(self) -> nat {
        self.released as nat
    }

    /// The time from which all times count.
    pub closed spec fn first_ts(self) -> nat {
        self.first_ts as nat
    }

    /// The first views are always released, and the times of the others count
    /// from that of the first.
    pub open spec fn wf(self) -> bool {
        &&& FIRST_VIEWS <= self.released() <= self.views().len()
        &&& forall|i: int|
            FIRST_VIEWS <= i < self.views().len() ==> named_time(*#[trigger] self.views()[i]).is_some() && self.first_ts()
                <= named_time(*self.views()[i])->0
    }

    /// Whether the view was taken no later than `elapsed` after the first.
    pub open spec fn reached(self, i: int, elapsed: usize) -> bool {
        named_time(*self.views()[i])->0 - self.first_ts() <= elapsed
    }

    /// Orders the views by name and releases the first few.
    pub fn new(all_views: &Vec<Arc<LoadableView>>) -> (loader: Self)
        requires
            all_views@.len() >= FIRST_VIEWS,
            timed(all_views@),
        ensures
            loader.wf(),
            loader.released() == FIRST_VIEWS,
            loader.released() == 5,
            loader.views().len() == all_views@.len(),
            forall|i: int| 0 <= i < all_views@.len() ==> loader.views().contains(#[trigger] all_views@[i]),
            forall|p: int, q: int|
                0 <= p < q < loader.views().len() ==> !name_less(
                    (#[trigger] loader.views()[q]).image_name@,
                    (#[trigger] loader.views()[p]).image_name@,
                ),
            loader.first_ts() == named_time(*loader.views()[0])->0,
            exists|order: Seq<usize>| #[trigger]
                is_name_order(order, all_views@, all_views@.len()) && loader.views() == order.map_values(
                    |i: usize| all_views@[i as int],
                ),
    {
        let order = name_order(all_views);
        let n: usize = order.len();
        let ghost all = order@.map_values(|i: usize| all_views@[i as int]);
        let mut views: Vec<Arc<LoadableView>> = Vec::new();
        for p in 0..n
            invariant
                n == order@.len(),
                is_name_order(order@, all_views@, all_views@.len()),
                all == order@.map_values(|i: usize| all_views@[i as int]),
                views@ == all.take(p as int),
        {
            views.push(share(&all_views[order[p]]));
            assert(all.take(p + 1) =~= all.take(p as int).push(all[p as int]));
        }
        proof {
            assert(all.take(n as int) =~= all);
            assert(timed_in_order(order@, all_views@));
            assert forall|i: int| FIRST_VIEWS <= i < all.len() implies named_time(*#[trigger] all[i]).is_some()
                && named_time(*all[0])->0 <= named_time(*all[i])->0 by {
                assert(all[i] == all_views@[order@[i] as int]);
            }
        }
        proof {
            assert forall|i: int| 0 <= i < all_views@.len() implies all.contains(#[trigger] all_views@[i]) by {
                lemma_name_order_is_complete(order@, all_views@, i as usize);
                let p = choose|p: int| 0 <= p < order@.len() && order@[p] == i as usize;
                assert(all[p] == all_views@[i]);
            }
            assert forall|p: int, q: int| 0 <= p < q < all.len() implies !name_less(
                (#[trigger] all[q]).image_name@,
                (#[trigger] all[p]).image_name@,
            ) by {
                assert(view_before(all_views@, order@[p], order@[q]));
                lemma_name_total(all[p].image_name@, all[q].image_name@);
            }
        }
        let first_ts: usize = time_of(&*views[0]);
        IncrementalSceneLoader { views, released: FIRST_VIEWS, first_ts }
    }

    /// Releases the views whose time has come, in order, up to the first whose
    /// time has not.
    pub fn release(&mut self, elapsed: usize)
        requires
            old(self).wf(),
        ensures
            final(self).wf(),
            releases(*old(self), elapsed, *final(self)),
            final(self).views() == old(self).views(),
            final(self).first_ts() == old(self).first_ts(),
            final(self).released() >= old(self).released(),
            forall|i: int|
                old(self).released() <= i < final(self).released() ==> named_time(*#[trigger] old(self).views()[i])->0
                    <= old(self).first_ts() + elapsed,
            final(self).released() < old(self).views().len() ==> named_time(
                *old(self).views()[final(self).released() as int],
            )->0 > old(self).first_ts() + elapsed,
    {
        let ghost before = *self;
        let n: usize = self.views.len();
        while self.released < n
            invariant_except_break
                before.wf(),
                n == self.views@.len(),
                self.views@ == before.views@,
                self.first_ts == before.first_ts,
                before.released <= self.released <= n,
                forall|i: int| before.released <= i < self.released ==> #[trigger] before.reached(i, elapsed),
            ensures
                self.views@ == before.views@,
                self.first_ts == before.first_ts,
                before.released <= self.released <= n,
                n == self.views@.len(),
                forall|i: int| before.released <= i < self.released ==> #[trigger] before.reached(i, elapsed),
                self.released < n ==> !before.reached(self.released as int, elapsed),
            decreases n - self.released,
        {
            assert(named_time(*before.views()[self.released as int]).is_some());
            let img_ts: usize = time_of(&*self.views[self.released]) - self.first_ts;
            if img_ts > elapsed {
                break ;
            }
            assert(before.reached(self.released as int, elapsed));
            self.released = self.released + 1;
        }
        proof {
            assert forall|i: int| before.released() <= i < self.released() implies named_time(
                *#[trigger] before.views()[i],
            )->0 <= before.first_ts() + elapsed by {
                assert(before.reached(i, elapsed));
            }
        }
    }

    /// Whether all views have been released.
    pub fn is_complete(&self) -> (complete: bool)
        ensures
            complete == (self.released() >= self.views().len()),
    {
        self.released >= self.views.len()
    }

    /// How many views have been released.
    pub fn released_count(&self) -> (count: usize)
        ensures
            count == self.released(),
    {
        self.released
    }

    /// A released view.
    pub fn view(&self, index: usize) -> (view: Arc<LoadableView>)
        requires
            self.wf(),
            index < self.released(),
        ensures
            view == self.views()[index as int],
    {
        share(&self.views[index])
    }

    /// An empty cache with a slot for each view.
    pub fn new_cache(&self) -> (cache: ImageCache)
        ensures
            cache.wf(),
            cache.slots() == Seq::new(self.views().len(), |i: int| None::<Arc<RasterImage>>),
    {
        ImageCache::new(self.views.len())
    }
}

/// Whether the views whose time has come were released, in order, up to the
/// first whose time has not.
pub open spec fn releases(before: IncrementalSceneLoader, elapsed: usize, after: IncrementalSceneLoader) -> bool {
    &&& after.views() == before.views()
    &&& after.first_ts() == before.first_ts()
    &&& before.released() <= after.released() <= after.views().len()
    &&& forall|i: int| before.released() <= i < after.released() ==> #[trigger] before.reached(i, elapsed)
    &&& after.released() < after.views().len() ==> !before.reached(after.released() as int, elapsed)
}

/// It does not matter how often views are released: releasing at an earlier
/// time first changes nothing about what a later release leaves.
pub proof fn lemma_releasing_earlier_is_harmless(
    before: IncrementalSceneLoader,
    earlier: usize,
    between: IncrementalSceneLoader,
    later: usize,
    after: IncrementalSceneLoader,
)
    requires
        releases(before, earlier, between),
        releases(between, later, after),
        earlier <= later,
    ensures
        releases(before, later, after),
{
    assert forall|i: int| before.released() <= i < after.released() implies #[trigger] before.reached(i, later) by {
        if i < between.released() {
            assert(before.reached(i, earlier));
        } else {
            assert(between.reached(i, later));
        }
    }
    if after.released() < after.views().len() {
        assert(!between.reached(after.released() as int, later));
    }
}

/// Ordering by name leaves out no view.
pub proof fn lemma_name_order_is_complete(order: Seq<usize>, views: Seq<Arc<LoadableView>>, i: usize)
    requires
        is_name_order(order, views, views.len()),
        i < views.len(),
    ensures
        order.contains(i),
{
    assert(order.no_duplicates()) by {
        assert forall|p: int, q: int| 0 <= p < order.len() && 0 <= q < order.len() && p != q implies order[p]
            != order[q] by {
            let x = views[order[p] as int].image_name@;
            lemma_name_total(x, x);
            if p < q {
                assert(view_before(views, order[p], order[q]));
            } else {
                assert(view_before(views, order[q], order[p]));
            }
        }
    }
    crate::export::lemma_permutation_is_complete(order, views.len(), i);
}

/// The seeds of the loader tasks: one per task, counted up from the seed.
pub fn task_seeds(seed: u64, n_actors: usize) -> (seeds: Vec<u64>)
    requires
        n_actors * TASKS_PER_ACTOR <= usize::MAX,
    ensures
        seeds@.len() == n_actors * TASKS_PER_ACTOR,
        seeds@.len() == 2 * n_actors,
        forall|k: int| 0 <= k < seeds@.len() ==> #[trigger] seeds@[k] == (seed + k) % 0x1_0000_0000_0000_0000,
{
    let n: usize = n_actors * TASKS_PER_ACTOR;
    let mut seeds: Vec<u64> = Vec::new();
    for k in 0..n
        invariant
            seeds@.len() == k,
            forall|j: int| 0 <= j < k ==> #[trigger] seeds@[j] == (seed + j) % 0x1_0000_0000_0000_0000,
    {
        seeds.push(seed.wrapping_add(k as u64));
    }
    seeds
}

/// A loader task: it goes through shuffled views, a few at a time.
pub struct LoaderTask {
    rng: StdRng,
    shuffled: Vec<usize>,
}

/// The numbers below `n`, in order.
pub open spec fn below(n: nat) -> Seq<usize> {
    Seq::new(n, |i: int| i as usize)
}

impl LoaderTask {
    /// The views that are still to be loaded before the next shuffle.
    pub closed spec fn shuffled(self) -> Seq<usize> {
        self.shuffled@
    }

    /// The source of random numbers.
    pub closed spec fn rng(self) -> StdRng {
        self.rng
    }

    /// What is still to be loaded are distinct views among the first `n`.
    pub open spec fn wf(self, n: nat) -> bool {
        &&& self.shuffled().no_duplicates()
        &&& self.shuffled().len() <= EPOCH
        &&& forall|k: int| 0 <= k < self.shuffled().len() ==> (#[trigger] self.shuffled()[k]) < n
    }

    /// A task that has loaded nothing.
    pub fn new(seed: u64) -> (task: Self)
        ensures
            task.shuffled() == Seq::<usize>::empty(),
            task.rng() == numbered_generator(seed),
            task.wf(0),
    {
        LoaderTask { rng: seed_from_u64(seed), shuffled: Vec::new() }
    }

    /// The view to load next. When all shuffled views have been loaded, the
    /// views are shuffled again, and a few of them are kept.
    pub fn next_index(&mut self, n_views: usize) -> (index: usize)
        requires
            old(self).wf(n_views as nat),
            n_views > 0,
        ensures
            final(self).wf(n_views as nat),
            index < n_views,
            !final(self).shuffled().contains(index),
            takes_index(old(self).shuffled(), n_views as nat, index, final(self).shuffled()),
            old(self).shuffled().len() > 0 ==> {
                &&& final(self).shuffled().push(index) == old(self).shuffled()
                &&& final(self).rng() == old(self).rng()
            },
            old(self).shuffled().len() == 0 ==> exists|all: &mut Vec<usize>, r: &mut StdRng|
                {
                    &&& #[trigger] shuffled(all, r)
                    &&& all@.len() == n_views
                    &&& forall|k: int| 0 <= k < n_views ==> #[trigger] all@[k] == k
                    &&& *r == old(self).rng()
                    &&& *final(r) == final(self).rng()
                    &&& final(self).shuffled().push(index) == final(all)@.take(
                        vstd::math::min(20, n_views as int),
                    )
                },
    {
        let ghost before = self.shuffled@;
        if self.shuffled.len() == 0 {
            let mut all: Vec<usize> = Vec::new();
            for i in 0..n_views
                invariant
                    all@ == below(i as nat),
            {
                all.push(i);
                assert(all@ =~= below((i + 1) as nat));
            }
            shuffle_items(&mut all, &mut self.rng);
            proof {
                lemma_shuffled(all@, n_views as nat);
            }
            let ghost permutation = all@;
            all.truncate(EPOCH);
            self.shuffled = all;
            assert(self.shuffled@ =~= permutation.take(vstd::math::min(EPOCH as int, n_views as int)));
            assert(permutation.to_multiset() == below(n_views as nat).to_multiset());
            assert(starts_epoch(before, self.shuffled@, n_views as nat));
        }
        let ghost epoch = self.shuffled@;
        assert(starts_epoch(before, epoch, n_views as nat));
        let index: usize = self.shuffled.pop().unwrap();
        assert(self.shuffled@ =~= epoch.drop_last());
        assert(self.shuffled@.push(index) =~= epoch);
        index
    }
}

/// Whether the epoch goes on with what is left, or is a new one: the front
/// part of some order of all views.
pub open spec fn starts_epoch(left: Seq<usize>, epoch: Seq<usize>, n: nat) -> bool {
    if left.len() > 0 {
        epoch == left
    } else {
        exists|order: Seq<usize>|
            {
                &&& #[trigger] order.to_multiset() == below(n).to_multiset()
                &&& epoch == order.take(vstd::math::min(EPOCH as int, n as int))
            }
    }
}

/// Whether the index comes next, and these are left after it.
pub open spec fn takes_index(left: Seq<usize>, n: nat, index: usize, after: Seq<usize>) -> bool {
    exists|epoch: Seq<usize>|
        {
            &&& #[trigger] starts_epoch(left, epoch, n)
            &&& index == epoch.last()
            &&& after == epoch.drop_last()
        }
}

/// Within a round no view is picked twice, and each is among the views that
/// there were at its start. A round ends after `EPOCH` views, or after all if
/// those are fewer. `left` lists what is left before the first pick and after
/// each; `n_views` how many views there are at each pick.
pub proof fn lemma_rounds_pick_distinct_views(left: Seq<Seq<usize>>, n_views: Seq<usize>, picks: Seq<usize>)
    requires
        picks.len() > 0,
        left.len() == picks.len() + 1,
        n_views.len() == picks.len(),
        left[0].len() == 0,
        forall|k: int| 0 < k < picks.len() ==> (#[trigger] left[k]).len() > 0,
        forall|k: int|
            0 <= k < picks.len() ==> takes_index(left[k], n_views[k] as nat, #[trigger] picks[k], left[k + 1]),
        n_views[0] > 0,
    ensures
        picks.no_duplicates(),
        forall|k: int| 0 <= k < picks.len() ==> (#[trigger] picks[k]) < n_views[0],
        left.last().len() == vstd::math::min(EPOCH as int, n_views[0] as int) - picks.len(),
{
    let n = n_views[0] as nat;
    assert(takes_index(left[0], n, picks[0], left[1]));
    let epoch = choose|epoch: Seq<usize>|
        {
            &&& #[trigger] starts_epoch(left[0], epoch, n)
            &&& picks[0] == epoch.last()
            &&& left[1] == epoch.drop_last()
        };
    let order = choose|order: Seq<usize>|
        {
            &&& #[trigger] order.to_multiset() == below(n).to_multiset()
            &&& epoch == order.take(vstd::math::min(EPOCH as int, n as int))
        };
    lemma_shuffled(order, n);
    lemma_round(left, n_views, picks, epoch, picks.len() as int);
    assert forall|i: int, j: int| 0 <= i < picks.len() && 0 <= j < picks.len() && i != j implies picks[i]
        != picks[j] by {
        assert(picks[i] == epoch[epoch.len() - 1 - i] && picks[j] == epoch[epoch.len() - 1 - j]);
        assert(order[epoch.len() - 1 - i] != order[epoch.len() - 1 - j]);
    }
    assert forall|k: int| 0 <= k < picks.len() implies (#[trigger] picks[k]) < n_views[0] by {
        assert(picks[k] == order[epoch.len() - 1 - k]);
    }
}

proof fn lemma_round(left: Seq<Seq<usize>>, n_views: Seq<usize>, picks: Seq<usize>, epoch: Seq<usize>, m: int)
    requires
        0 < m <= picks.len(),
        left.len() == picks.len() + 1,
        n_views.len() == picks.len(),
        epoch.len() > 0,
        picks[0] == epoch.last(),
        left[1] == epoch.drop_last(),
        forall|k: int| 0 < k < picks.len() ==> (#[trigger] left[k]).len() > 0,
        forall|k: int|
            0 <= k < picks.len() ==> takes_index(left[k], n_views[k] as nat, #[trigger] picks[k], left[k + 1]),
    ensures
        m <= epoch.len(),
        left[m] == epoch.take(epoch.len() - m),
        forall|k: int| 0 <= k < m ==> #[trigger] picks[k] == epoch[epoch.len() - 1 - k],
    decreases m,
{
    if m == 1 {
        assert(epoch.drop_last() =~= epoch.take(epoch.len() - 1));
    } else {
        lemma_round(left, n_views, picks, epoch, m - 1);
        assert(takes_index(left[m - 1], n_views[m - 1] as nat, picks[m - 1], left[m]));
        assert(left[m - 1].len() > 0);
        assert(left[m] =~= epoch.take(epoch.len() - m));
    }
}

proof fn lemma_shuffled(order: Seq<usize>, n: nat)
    requires
        order.to_multiset() == below(n).to_multiset(),
        n <= usize::MAX,
    ensures
        order.len() == n,
        order.no_duplicates(),
        forall|k: int| 0 <= k < order.len() ==> (#[trigger] order[k]) < n,
{
    broadcast use vstd::seq_lib::group_to_multiset_ensures;

    let all = below(n);
    assert(all.no_duplicates());
    all.lemma_multiset_has_no_duplicates();
    assert(order.len() == order.to_multiset().len());
    assert(all.len() == all.to_multiset().len());
    order.lemma_multiset_has_no_duplicates_conv();
    assert forall|k: int| 0 <= k < order.len() implies (#[trigger] order[k]) < n by {
        assert(order.contains(order[k]));
        assert(order.to_multiset().count(order[k]) > 0);
        assert(all.contains(order[k]));
    }
}

/// Whether a view was loaded: its image is what the cache holds for it, or else
/// it is decoded and offered to the cache.
pub open spec fn loads(
    before: ImageCache,
    index: usize,
    decoded: spec_fn(int) -> Arc<RasterImage>,
    raster: Arc<RasterImage>,
    after: ImageCache,
) -> bool {
    &&& index < before.slots().len()
    &&& match before.slots()[index as int] {
        Some(cached) => raster == cached && after == before,
        None => {
            &&& raster == decoded(index as int)
            &&& inserts(before, index as int, raster, after)
        },
    }
}

/// Each view is trained on with its own image, whether or not that comes from
/// the cache. `caches` lists the cache before the first load and after each.
pub proof fn lemma_views_get_their_own_image(
    caches: Seq<ImageCache>,
    picks: Seq<usize>,
    decoded: spec_fn(int) -> Arc<RasterImage>,
    images: Seq<Arc<RasterImage>>,
)
    requires
        caches.len() == picks.len() + 1,
        images.len() == picks.len(),
        forall|i: int| 0 <= i < caches[0].slots().len() ==> (#[trigger] caches[0].slots()[i]).is_none(),
        forall|k: int|
            0 <= k < picks.len() ==> loads(caches[k], #[trigger] picks[k], decoded, images[k], caches[k + 1]),
    ensures
        forall|k: int| 0 <= k < picks.len() ==> #[trigger] images[k] == decoded(picks[k] as int),
{
    assert forall|k: int| 0 <= k < picks.len() implies #[trigger] images[k] == decoded(picks[k] as int) by {
        lemma_cached_are_decoded(caches, picks, decoded, images, k);
        assert(loads(caches[k], picks[k], decoded, images[k], caches[k + 1]));
    }
}

proof fn lemma_cached_are_decoded(
    caches: Seq<ImageCache>,
    picks: Seq<usize>,
    decoded: spec_fn(int) -> Arc<RasterImage>,
    images: Seq<Arc<RasterImage>>,
    k: int,
)
    requires
        caches.len() == picks.len() + 1,
        images.len() == picks.len(),
        forall|i: int| 0 <= i < caches[0].slots().len() ==> (#[trigger] caches[0].slots()[i]).is_none(),
        forall|k: int|
            0 <= k < picks.len() ==> loads(caches[k], #[trigger] picks[k], decoded, images[k], caches[k + 1]),
        0 <= k <= picks.len(),
    ensures
        forall|i: int|
            0 <= i < caches[k].slots().len() && (#[trigger] caches[k].slots()[i]).is_some() ==> caches[k].slots()[i]
                == Some(decoded(i)),
    decreases k,
{
    if k > 0 {
        lemma_cached_are_decoded(caches, picks, decoded, images, k - 1);
        assert(loads(caches[k - 1], picks[k - 1], decoded, images[k - 1], caches[k]));
    }
}

/// The batch of a view with an image.
pub open spec fn view_batch(view: LoadableView, raster: Arc<RasterImage>) -> SceneBatch {
    SceneBatch { image: raster, alpha_mode: view.alpha_mode, camera: view.camera, depth: None }
}

/// The batch of a view, with its decoded image.
pub fn batch_of_view(view: &LoadableView, raster: Arc<RasterImage>) -> (batch: SceneBatch)
    ensures
        batch == view_batch(*view, raster),
        batch.image == raster,
        batch.alpha_mode == view.alpha_mode,
        batch.camera == view.camera,
        batch.depth.is_none(),
{
    SceneBatch { image: raster, alpha_mode: view.alpha_mode, camera: view.camera, depth: None }
}

/// The time in a name is the number that its part before the first dot spells,
/// or all of it if there is no dot. Other names hold none.
pub proof fn lemma_time_is_named(view: LoadableView, stem: Seq<char>, ending: Seq<char>, n: nat)
    requires
        view.image_name@ == stem + ending,
        !stem.contains('.'),
        ending.len() == 0 || ending[0] == '.',
    ensures
        named_time(view) == parsed_unsigned(stem, usize::MAX as nat),
        stem == decimal(n) && n <= usize::MAX ==> named_time(view) == Some(n),
{
    let name = view.image_name@;
    let k = stem.len() as int;
    assert forall|i: int| 0 <= i < k implies name[i] != '.' by {
        assert(name[i] == stem[i]);
        assert(stem.contains(stem[i]));
    }
    if k < name.len() {
        assert(name[k] == ending[0]);
    }
    lemma_first_piece(name, '.', k);
    assert(name.take(k) =~= stem);
    if stem == decimal(n) && n <= usize::MAX {
        lemma_decimal_is_read_back(n, usize::MAX as nat);
    }
}

/// Names are compared character by character: the first difference decides, and
/// of two names without one the shorter comes first.
pub proof fn lemma_first_difference_decides(a: Seq<char>, b: Seq<char>, k: int)
    requires
        0 <= k <= a.len(),
        k <= b.len(),
        forall|i: int| 0 <= i < k ==> #[trigger] a[i] == b[i],
        k < a.len() && k < b.len() ==> a[k] != b[k],
    ensures
        name_less(a, b) <==> if k < a.len() && k < b.len() {
            a[k] < b[k]
        } else {
            k < b.len()
        },
    decreases k,
{
    if k > 0 {
        assert(a[0] == b[0]);
        let (c, d) = (a.drop_first(), b.drop_first());
        assert forall|i: int| 0 <= i < k - 1 implies #[trigger] c[i] == d[i] by {
            assert(a[i + 1] == b[i + 1]);
        }
        lemma_first_difference_decides(c, d, k - 1);
    }
}

/// Views are released in order, as soon as their time has come and that of all
/// views before them: after a release, the next one that is not released is
/// later.
pub proof fn lemma_views_are_released_in_time(before: IncrementalSceneLoader, elapsed: usize, after: IncrementalSceneLoader)
    requires
        before.wf(),
        releases(before, elapsed, after),
    ensures
        after.views() == before.views(),
        before.released() <= after.released() <= before.views().len(),
        forall|i: int|
            before.released() <= i < after.released() ==> named_time(*#[trigger] before.views()[i])->0
                <= before.first_ts() + elapsed,
        after.released() < before.views().len() ==> named_time(*before.views()[after.released() as int])->0
            > before.first_ts() + elapsed,
{
    assert forall|i: int| before.released() <= i < after.released() implies named_time(
        *#[trigger] before.views()[i],
    )->0 <= before.first_ts() + elapsed by {
        assert(before.reached(i, elapsed));
    }
}

/// A view is loaded from the cache if it is there, and decoded otherwise; then
/// it is offered to the cache.
pub proof fn lemma_cached_views_are_not_decoded(
    before: ImageCache,
    index: usize,
    decoded: spec_fn(int) -> Arc<RasterImage>,
    raster: Arc<RasterImage>,
    after: ImageCache,
)
    requires
        loads(before, index, decoded, raster, after),
        before.wf(),
    ensures
        before.slots()[index as int].is_some() ==> Some(raster) == before.slots()[index as int] && after == before,
        before.slots()[index as int].is_none() ==> raster == decoded(index as int),
        before.slots()[index as int].is_none() && before.used_mb() + raster.bytes@.len() / 1_048_576 < 6144
            ==> after.slots()[index as int] == Some(raster),
{
}

/// The picks of a round come from its end: the first pick of a new round is the
/// last view that the shuffle kept, and one view is left less after each.
pub proof fn lemma_picks_come_from_the_end(left: Seq<usize>, n: nat, index: usize, after: Seq<usize>)
    requires
        takes_index(left, n, index, after),
        n > 0,
        n <= usize::MAX,
    ensures
        left.len() > 0 ==> left == after.push(index),
        left.len() == 0 ==> after.push(index).len() == vstd::math::min(20, n as int),
        left.len() == 0 ==> after.push(index).no_duplicates(),
        left.len() == 0 ==> forall|k: int| 0 <= k < after.len() ==> (#[trigger] after[k]) < n,
        left.len() == 0 ==> index < n,
{
    let epoch = choose|epoch: Seq<usize>|
        {
            &&& #[trigger] starts_epoch(left, epoch, n)
            &&& index == epoch.last()
            &&& after == epoch.drop_last()
        };
    if left.len() > 0 {
        assert(after.push(index) =~= left);
    } else {
        let order = choose|order: Seq<usize>|
            {
                &&& #[trigger] order.to_multiset() == below(n).to_multiset()
                &&& epoch == order.take(vstd::math::min(EPOCH as int, n as int))
            };
        lemma_shuffled(order, n);
        assert(after.push(index) =~= epoch);
        assert forall|k: int| 0 <= k < after.len() implies (#[trigger] after[k]) < n by {
            assert(after[k] == order[k]);
        }
        assert(index == order[epoch.len() - 1]);
    }
}

/// A shuffle of the list of all views has every view in it: none is kept from
/// any round but by the order that the shuffle gave.
pub proof fn lemma_every_view_is_shuffled(n: usize)
    ensures
        forall|all: &mut Vec<usize>, r: &mut StdRng|
            {
                &&& #[trigger] shuffled(all, r)
                &&& all@.len() == n
                &&& forall|k: int| 0 <= k < n ==> #[trigger] all@[k] == k
            } ==> {
                &&& final(all)@.len() == n
                &&& final(all)@.no_duplicates()
                &&& forall|i: usize| i < n ==> #[trigger] final(all)@.contains(i)
            },
{
    lemma_draws_stay_inside::<usize>();
    assert forall|all: &mut Vec<usize>, r: &mut StdRng|
        {
            &&& #[trigger] shuffled(all, r)
            &&& all@.len() == n
            &&& forall|k: int| 0 <= k < n ==> #[trigger] all@[k] == k
        } implies {
        &&& final(all)@.len() == n
        &&& final(all)@.no_duplicates()
        &&& forall|i: usize| i < n ==> #[trigger] final(all)@.contains(i)
    } by {
        assert(all@ =~= below(n as nat));
        let order = final(all)@;
        lemma_shuffled(order, n as nat);
        assert forall|i: usize| i < n implies #[trigger] order.contains(i) by {
            crate::export::lemma_permutation_is_complete(order, n as nat, i);
        }
    }
}

} // verus!
