//! Random draws from `rand`.
//!
//! Of a draw the library relies only on what holds of every outcome. Which
//! call gave an outcome is kept: what was drawn from, the generator before and
//! the generator afterwards.
use rand::{Rng, RngExt, SeedableRng};
use rand::rngs::{SmallRng, StdRng};
use rand::seq::{IndexedRandom, SliceRandom};
use vstd::prelude::*;

verus! {

/// Declares `rand::rngs::StdRng`.
#[verifier::external_type_specification]
#[verifier::external_body]
pub struct ExStdRng(StdRng);

/// Declares `rand::rngs::SmallRng`.
#[verifier::external_type_specification]
#[verifier::external_body]
pub struct ExSmallRng(SmallRng);

/// The generator that `StdRng::from_seed` makes from a seed.
pub uninterp spec fn seeded_generator(seed: Seq<u8>) -> StdRng;

/// The generator that `StdRng::seed_from_u64` makes from a number.
pub uninterp spec fn numbered_generator(seed: u64) -> StdRng;

/// `StdRng::from_seed` makes the generator that belongs to the seed, always
/// the same one.
#[verifier::external_body]
pub(crate) fn from_seed(seed: [u8; 32]) -> (rng: StdRng)
    ensures
        rng == seeded_generator(seed@),
{
    StdRng::from_seed(seed)
}

/// `StdRng::seed_from_u64` makes the generator that belongs to the number,
/// always the same one.
#[verifier::external_body]
pub(crate) fn seed_from_u64(seed: u64) -> (rng: StdRng)
    ensures
        rng == numbered_generator(seed),
{
    StdRng::seed_from_u64(seed)
}

/// The 32 bytes that `Rng::fill_bytes` takes from a generator, and the generator
/// afterwards.
pub uninterp spec fn filled_bytes(rng: StdRng) -> (Seq<u8>, StdRng);

/// `Rng::fill_bytes` fills 32 bytes with what the generator gives next. Bytes and
/// generator afterwards depend on the generator alone.
#[verifier::external_body]
pub(crate) fn take_seed(rng: &mut StdRng) -> (seed: [u8; 32])
    ensures
        (seed@, *final(rng)) == filled_bytes(*old(rng)),
{
    let mut seed = [0u8; 32];
    rng.fill_bytes(&mut seed);
    seed
}

/// `SmallRng::from_seed` makes a fast generator from a seed. Nothing is said of
/// the numbers that it will give: its algorithm differs between machines.
#[verifier::external_body]
pub(crate) fn small_from_seed(seed: [u8; 32]) -> (fast: SmallRng)
{
    SmallRng::from_seed(seed)
}

/// `IndexedRandom::choose` gives one of the items, or nothing if there are
/// none.
#[verifier::external_body]
pub(crate) fn choose_item<'a, T>(items: &'a Vec<T>, rng: &mut StdRng) -> (item: Option<&'a T>)
    ensures
        item.is_some() == (items@.len() > 0),
        item.is_some() ==> items@.contains(*item->0),
{
    items.choose(rng)
}

/// `RngExt::random_range` gives a number of the range. It panics if there is
/// none.
#[verifier::external_body]
pub(crate) fn random_range(low: usize, high: usize, rng: &mut StdRng) -> (drawn: usize)
    requires
        low < high,
    ensures
        low <= drawn < high,
{
    rng.random_range(low..high)
}

/// `SliceRandom::shuffle` puts the items into some order.
#[verifier::external_body]
pub(crate) fn shuffle(items: &mut Vec<usize>, rng: &mut StdRng)
    ensures
        final(items)@.to_multiset() == old(items)@.to_multiset(),
{
    items.shuffle(rng)
}

/// Whether a call of `IndexedRandom::choose` on the items with the generator
/// gave this item.
pub closed spec fn chosen<'a, T>(items: &'a Vec<T>, rng: &mut StdRng, item: Option<&'a T>) -> bool {
    call_ensures(choose_item::<T>, (items, rng), item)
}

/// Whether a call of `RngExt::random_range` on the range with the generator
/// gave this number.
pub closed spec fn ranged(low: usize, high: usize, rng: &mut StdRng, drawn: usize) -> bool {
    call_ensures(random_range, (low, high, rng), drawn)
}

/// Whether a call of `SliceRandom::shuffle` with the generator put the items
/// into the order that they have afterwards.
pub closed spec fn shuffled(items: &mut Vec<usize>, rng: &mut StdRng) -> bool {
    call_ensures(shuffle, (items, rng), ())
}

/// Whether a call of `SmallRng::from_seed` on the seed gave this generator.
pub closed spec fn fast_from(seed: [u8; 32], fast: SmallRng) -> bool {
    call_ensures(small_from_seed, (seed,), fast)
}

/// Nothing is called chosen, drawn, shuffled or made but what the calls gave.
pub(crate) proof fn lemma_draws_are_calls<T>()
    ensures
        forall|items: &Vec<T>, rng: &mut StdRng, item: Option<&T>| #[trigger]
            chosen(items, rng, item) ==> call_ensures(choose_item::<T>, (items, rng), item),
        forall|low: usize, high: usize, rng: &mut StdRng, drawn: usize| #[trigger]
            ranged(low, high, rng, drawn) ==> call_ensures(random_range, (low, high, rng), drawn),
        forall|items: &mut Vec<usize>, rng: &mut StdRng| #[trigger]
            shuffled(items, rng) ==> call_ensures(shuffle, (items, rng), ()),
        forall|seed: [u8; 32], fast: SmallRng| #[trigger]
            fast_from(seed, fast) ==> call_ensures(small_from_seed, (seed,), fast),
{
}

/// Whatever is drawn comes from what was drawn from: an item of the list, which
/// is missing only if the list is empty, a number of the range, and the same
/// items in another order.
pub proof fn lemma_draws_stay_inside<T>()
    ensures
        forall|items: &Vec<T>, rng: &mut StdRng, item: Option<&T>| #[trigger]
            chosen(items, rng, item) ==> {
                &&& item.is_some() == (items@.len() > 0)
                &&& item.is_some() ==> items@.contains(*item->0)
            },
        forall|low: usize, high: usize, rng: &mut StdRng, drawn: usize| #[trigger]
            ranged(low, high, rng, drawn) ==> low <= drawn < high,
        forall|items: &mut Vec<usize>, rng: &mut StdRng| #[trigger]
            shuffled(items, rng) ==> final(items)@.to_multiset() == items@.to_multiset(),
{
    lemma_draws_are_calls::<T>();
}

/// A fast generator from a seed.
pub(crate) fn make_fast(seed: [u8; 32]) -> (fast: SmallRng)
    ensures
        fast_from(seed, fast),
{
    let make = small_from_seed;
    make(seed)
}

/// One of the items, or nothing if there are none.
pub(crate) fn draw_item<'a, T>(items: &'a Vec<T>, rng: &mut StdRng) -> (item: Option<&'a T>)
    ensures
        item.is_some() == (items@.len() > 0),
        item.is_some() ==> items@.contains(*item->0),
        exists|r: &mut StdRng| #[trigger] chosen(items, r, item) && *r == *old(rng) && *final(r) == *final(rng),
{
    let draw = choose_item::<T>;
    let item = draw(items, rng);
    proof {
        let ghost r = choose|r: &mut StdRng| #[trigger]
            call_ensures(draw, (items, r), item) && *r == *old(rng) && *final(r) == *rng;
        assert(chosen(items, r, item));
    }
    item
}

/// A number of the range.
pub(crate) fn draw_number(low: usize, high: usize, rng: &mut StdRng) -> (drawn: usize)
    requires
        low < high,
    ensures
        low <= drawn < high,
        exists|r: &mut StdRng| #[trigger] ranged(low, high, r, drawn) && *r == *old(rng) && *final(r) == *final(rng),
{
    let draw = random_range;
    let drawn: usize = draw(low, high, rng);
    proof {
        let ghost r = choose|r: &mut StdRng| #[trigger]
            call_ensures(draw, (low, high, r), drawn) && *r == *old(rng) && *final(r) == *rng;
        assert(ranged(low, high, r, drawn));
    }
    drawn
}

/// Puts the items into some order.
pub(crate) fn shuffle_items(items: &mut Vec<usize>, rng: &mut StdRng)
    ensures
        final(items)@.to_multiset() == old(items)@.to_multiset(),
        exists|list: &mut Vec<usize>, r: &mut StdRng|
            {
                &&& #[trigger] shuffled(list, r)
                &&& *list == *old(items)
                &&& *final(list) == *final(items)
                &&& *r == *old(rng)
                &&& *final(r) == *final(rng)
            },
{
    let draw = shuffle;
    draw(items, rng);
    proof {
        let ghost (list, r) = choose|list: &mut Vec<usize>, r: &mut StdRng|
            {
                &&& #[trigger] call_ensures(draw, (list, r), ())
                &&& *list == *old(items)
                &&& *final(list) == *items
                &&& *r == *old(rng)
                &&& *final(r) == *rng
            };
        assert(shuffled(list, r));
    }
}

/// A seed of 32 equal bytes.
pub open spec fn repeated_byte(seed: u64) -> Seq<u8> {
    Seq::new(32, |i: int| (seed % 256) as u8)
}

/// The generator of a training run: the low byte of the seed, 32 times.
pub fn run_rng(seed: u64) -> (rng: StdRng)
    ensures
        rng == seeded_generator(repeated_byte(seed)),
{
    let byte: u8 = (seed % 256) as u8;
    let seed_bytes: [u8; 32] = [byte; 32];
    assert(seed_bytes@ =~= repeated_byte(seed));
    from_seed(seed_bytes)
}

} // verus!
