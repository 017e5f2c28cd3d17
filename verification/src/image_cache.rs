//! A bounded cache of decoded images.
use crate::raster::{share, RasterImage};
use std::sync::Arc;
use vstd::prelude::*;

verus! {

/// Cache budget for decoded images, in megabytes.
pub const CACHE_BUDGET_MB: usize = 6144;

/// Bytes per megabyte.
pub const MEGABYTE: usize = 1_048_576;

/// The size of an image in whole megabytes.
pub open spec fn size_mb(raster: RasterImage) -> nat {
    raster.bytes@.len() / (MEGABYTE as nat)
}

/// The size of all cached images, each in whole megabytes.
pub open spec fn total_mb(slots: Seq<Option<Arc<RasterImage>>>) -> nat
    decreases slots.len(),
{
    if slots.len() == 0 {
        0
    } else {
        total_mb(slots.drop_last()) + match slots.last() {
            Some(raster) => size_mb(*raster),
            None => 0,
        }
    }
}

/// Filling an empty slot adds the size of its image.
proof fn lemma_total_mb_fill(slots: Seq<Option<Arc<RasterImage>>>, index: int, raster: Arc<RasterImage>)
    requires
        0 <= index < slots.len(),
        slots[index].is_none(),
    ensures
        total_mb(slots.update(index, Some(raster))) == total_mb(slots) + size_mb(*raster),
    decreases slots.len(),
{
    let filled = slots.update(index, Some(raster));
    if index == slots.len() - 1 {
        assert(filled.drop_last() =~= slots.drop_last());
    } else {
        lemma_total_mb_fill(slots.drop_last(), index, raster);
        assert(filled.drop_last() =~= slots.drop_last().update(index, Some(raster)));
    }
}

proof fn lemma_total_mb_empty(slots: Seq<Option<Arc<RasterImage>>>)
    requires
        forall|i: int| 0 <= i < slots.len() ==> (#[trigger] slots[i]).is_none(),
    ensures
        total_mb(slots) == 0,
    decreases slots.len(),
{
    if slots.len() > 0 {
        assert(slots[slots.len() - 1].is_none());
        lemma_total_mb_empty(slots.drop_last());
    }
}

/// Shared cache of decoded images. Each slot holds at most one image; images
/// that do not fit into the budget bypass the cache.
pub struct ImageCache {
    slots: Vec<Option<Arc<RasterImage>>>,
    used_mb: usize,
    budget_mb: usize,
}

impl ImageCache {
    /// The images in the cache.
    pub closed spec fn slots(self) -> Seq<Option<Arc<RasterImage>>> {
        self.slots@
    }

    /// The running total of the sizes of the cached images, in megabytes.
    pub closed spec fn used_mb(self) -> nat {
        self.used_mb as nat
    }

    /// The running total stays below this many megabytes.
    pub closed spec fn budget_mb(self) -> nat {
        self.budget_mb as nat
    }

    /// The running total is the size of the cached images and is below the
    /// budget.
    pub open spec fn wf(self) -> bool {
        &&& self.used_mb() == total_mb(self.slots())
        &&& self.used_mb() < self.budget_mb()
        &&& self.budget_mb() == CACHE_BUDGET_MB
    }

    /// Whether an image would be put into the slot.
    pub open spec fn accepts(self, index: int, raster: RasterImage) -> bool {
        &&& self.slots()[index].is_none()
        &&& self.used_mb() + size_mb(raster) < self.budget_mb()
    }

    /// An empty cache with a slot for each view.
    pub fn new(n_views: usize) -> (cache: Self)
        ensures
            cache.wf(),
            cache.slots() == Seq::new(n_views as nat, |i: int| None::<Arc<RasterImage>>),
            cache.used_mb() == 0,
    {
        let mut slots: Vec<Option<Arc<RasterImage>>> = Vec::new();
        for i in 0..n_views
            invariant
                slots@ == Seq::new(i as nat, |i: int| None::<Arc<RasterImage>>),
        {
            slots.push(None);
            assert(slots@ =~= Seq::new((i + 1) as nat, |i: int| None::<Arc<RasterImage>>));
        }
        let cache = ImageCache { slots, used_mb: 0, budget_mb: CACHE_BUDGET_MB };
        proof {
            lemma_total_mb_empty(cache.slots());
        }
        cache
    }

    /// The image in a slot.
    pub fn get(&self, index: usize) -> (found: Option<Arc<RasterImage>>)
        requires
            index < self.slots().len(),
        ensures
            found == self.slots()[index as int],
    {
        match &self.slots[index] {
            Some(raster) => Some(share(raster)),
            None => None,
        }
    }

    /// Puts an image into a slot, if the slot is empty and the budget allows.
    pub fn insert(&mut self, index: usize, raster: Arc<RasterImage>)
        requires
            old(self).wf(),
            index < old(self).slots().len(),
        ensures
            final(self).wf(),
            inserts(*old(self), index as int, raster, *final(self)),
            final(self).slots().len() == old(self).slots().len(),
            final(self).slots()[index as int].is_none() ==> old(self).used_mb() + raster.bytes@.len() / 1_048_576 >= 6144,
            final(self).slots()[index as int] == old(self).slots()[index as int] || final(self).slots()[index as int]
                == Some(raster),
    {
        if self.slots[index].is_some() {
            return ;
        }
        let added_mb: usize = raster.bytes.len() / MEGABYTE;
        if self.used_mb + added_mb < self.budget_mb {
            proof {
                lemma_total_mb_fill(self.slots@, index as int, raster);
            }
            self.slots.set(index, Some(raster));
            self.used_mb = self.used_mb + added_mb;
        }
    }
}

/// Whether the image was put into the slot, or the cache stayed as it was because
/// the slot was full or the budget did not allow it.
pub open spec fn inserts(before: ImageCache, index: int, raster: Arc<RasterImage>, after: ImageCache) -> bool {
    if before.accepts(index, *raster) {
        &&& after.slots() == before.slots().update(index, Some(raster))
        &&& after.used_mb() == before.used_mb() + size_mb(*raster)
    } else {
        after == before
    }
}

/// What was put into a slot is what is found there, whatever is inserted
/// afterwards: no insertion changes a slot that holds an image.
pub proof fn lemma_cached_images_stay(before: ImageCache, after: ImageCache, index: int, raster: Arc<RasterImage>, other: int)
    requires
        0 <= index < before.slots().len(),
        0 <= other < before.slots().len(),
        before.slots()[other].is_some(),
        inserts(before, index, raster, after),
    ensures
        after.slots()[other] == before.slots()[other],
{
}

/// An image is kept if its slot is empty and the megabytes in use, its own
/// included, stay below 6144. Then the next look into the slot finds it, and all
/// other slots are as they were; otherwise nothing changes.
pub proof fn lemma_images_are_kept_while_there_is_room(before: ImageCache, index: int, raster: Arc<RasterImage>, after: ImageCache)
    requires
        before.wf(),
        0 <= index < before.slots().len(),
        inserts(before, index, raster, after),
    ensures
        before.slots()[index].is_none() && before.used_mb() + raster.bytes@.len() / 1_048_576 < 6144 ==> {
            &&& after.slots()[index] == Some(raster)
            &&& after.used_mb() == before.used_mb() + raster.bytes@.len() / 1_048_576
        },
        before.slots()[index].is_some() || before.used_mb() + raster.bytes@.len() / 1_048_576 >= 6144 ==> after == before,
        after.slots().len() == before.slots().len(),
        forall|other: int|
            0 <= other < before.slots().len() && other != index ==> #[trigger] after.slots()[other]
                == before.slots()[other],
{
}

/// The total counts every cached image with its whole megabytes.
pub proof fn lemma_total_counts_every_image(slots: Seq<Option<Arc<RasterImage>>>, slot: Option<Arc<RasterImage>>)
    ensures
        total_mb(Seq::empty()) == 0,
        total_mb(slots.push(slot)) == total_mb(slots) + (match slot {
            Some(raster) => raster.bytes@.len() / 1_048_576,
            None => 0,
        }),
{
    assert(slots.push(slot).drop_last() =~= slots);
}

} // verus!
