//! Frames as they arrive: poses, images and depths, and which of them have
//! been handed to the reconstruction.
use crate::camera::Camera;
use crate::chance::{repeated_byte, run_rng, seeded_generator};
use crate::dash::{
    depth_map, frame_set, get_depth, get_image, get_pose, has_pose, image_map, insert_depth, insert_frame, insert_image,
    insert_pose, list_frames, list_poses, new_depths, new_frames, new_images, new_poses, no_poses, pose_map,
};
use crate::pixels::multiple;
use crate::raster::RasterImage;
use crate::view_sampling::{
    counted, create_view_sampler, named_strategy, AnyViewSampler, FrameId, ViewSampler,
};
use dashmap::{DashMap, DashSet};
use rand::rngs::StdRng;
use std::collections::hash_map::RandomState;
use std::sync::Arc;
use vstd::prelude::*;

verus! {

/// How the alpha channel of an image is to be read.
#[derive(Clone, Copy, Debug, PartialEq, Eq)]
pub enum AlphaMode {
    Masked,
    Transparent,
}

/// An image with the depth of each pixel as a binary32 bit pattern.
pub struct ImageData {
    pub frame_id: FrameId,
    pub image: Arc<RasterImage>,
    pub depth: Arc<Vec<u32>>,
}

/// Where the camera was when a frame was taken.
#[derive(Clone, Copy)]
pub struct PoseData {
    pub frame_id: FrameId,
    pub translation: [u32; 3],
    pub quat: [u32; 4],
}

/// What one training step works on.
pub struct SceneBatch {
    pub image: Arc<RasterImage>,
    pub alpha_mode: AlphaMode,
    pub camera: Camera,
    pub depth: Option<Arc<Vec<u32>>>,
}

/// A frame that is ready to be added to the reconstruction.
pub type RegisteredFrame = (Camera, Arc<RasterImage>, Arc<Vec<u32>>);

/// A frame that is held back for evaluation.
pub type EvalView = (FrameId, Camera, Arc<RasterImage>);

/// Whether the `count`-th new frame is held back for evaluation.
pub open spec fn is_eval_frame(eval_every: Option<usize>, count: usize) -> bool {
    match eval_every {
        Some(n) => multiple(count as int, n as int),
        None => false,
    }
}

/// All frames that have arrived so far.
pub struct IncrementalDatabase {
    train_poses: DashMap<u64, Camera, RandomState>,
    eval_poses: DashMap<u64, Camera, RandomState>,
    image_data: DashMap<u64, Arc<RasterImage>, RandomState>,
    depth_data: DashMap<u64, Arc<Vec<u32>>, RandomState>,
    total_poses: usize,
    unregistered_frame_ids: DashSet<u64, RandomState>,
    unit_camera: Camera,
    eval_every: Option<usize>,
    view_sampler: AnyViewSampler,
    rng: StdRng,
}

impl IncrementalDatabase {
    /// The poses of the frames for training.
    pub closed spec fn train(self) -> Map<u64, Camera> {
        pose_map(self.train_poses)
    }

    /// The poses of the frames for evaluation.
    pub closed spec fn eval(self) -> Map<u64, Camera> {
        pose_map(self.eval_poses)
    }

    /// The images that have arrived.
    pub closed spec fn images(self) -> Map<u64, Arc<RasterImage>> {
        image_map(self.image_data)
    }

    /// The depth maps that have arrived.
    pub closed spec fn depths(self) -> Map<u64, Arc<Vec<u32>>> {
        depth_map(self.depth_data)
    }

    /// The training frames that have not been handed out yet.
    pub closed spec fn unregistered(self) -> Set<u64> {
        frame_set(self.unregistered_frame_ids)
    }

    /// How many frames got a pose.
    pub closed spec fn total(self) -> usize {
        self.total_poses
    }

    /// The intrinsics of all cameras.
    pub closed spec fn unit_camera(self) -> Camera {
        self.unit_camera
    }

    /// Every how many new frames one is held back for evaluation.
    pub closed spec fn eval_every(self) -> Option<usize> {
        self.eval_every
    }

    /// Picks the training views among the frames that have been handed out.
    pub closed spec fn sampler(self) -> AnyViewSampler {
        self.view_sampler
    }

    /// The source of random numbers.
    pub closed spec fn rng(self) -> StdRng {
        self.rng
    }

    /// A frame is for training or for evaluation, not both. A training frame
    /// is either waiting to be handed out or known to the sampler, not both,
    /// and the sampler knows it once. What the sampler knows has an image and
    /// depths. The frames are counted modulo the range of the counter.
    pub open spec fn wf(self) -> bool {
        let known = self.sampler().frames();
        &&& self.train().dom().finite()
        &&& self.eval().dom().finite()
        &&& self.train().dom().disjoint(self.eval().dom())
        &&& known.no_duplicates()
        &&& forall|f: u64| #[trigger]
            self.train().dom().contains(f) <==> self.unregistered().contains(f) || known.contains(f)
        &&& forall|f: u64| #[trigger]
            known.contains(f) ==> !self.unregistered().contains(f) && self.images().dom().contains(f)
                && self.depths().dom().contains(f)
        &&& self.total() == ((self.train().dom().len() + self.eval().dom().len()) as int) % (usize::MAX + 1)
    }

    /// Nothing but what is named in the frame conditions of an operation
    /// changes the settings of the database.
    pub open spec fn same_settings(self, other: Self) -> bool {
        &&& self.unit_camera() == other.unit_camera()
        &&& self.eval_every() == other.eval_every()
        &&& self.sampler().strategy() == other.sampler().strategy()
    }

    /// A database without frames.
    pub fn new(
        unit_camera: Camera,
        view_sampling_strategy: &str,
        eval_split_every: Option<usize>,
        seed: u64,
    ) -> (database: Self)
        requires
            named_strategy(view_sampling_strategy@).is_some(),
        ensures
            database.wf(),
            database.train().dom() == Set::<u64>::empty(),
            database.eval().dom() == Set::<u64>::empty(),
            database.images().dom() == Set::<u64>::empty(),
            database.depths().dom() == Set::<u64>::empty(),
            database.unregistered() == Set::<u64>::empty(),
            database.total() == 0,
            database.unit_camera() == unit_camera,
            database.eval_every() == eval_split_every,
            database.sampler().frames() == Seq::<FrameId>::empty(),
            database.sampler().strategy() == named_strategy(view_sampling_strategy@)->0,
            database.rng() == seeded_generator(repeated_byte(seed)),
    {
        IncrementalDatabase {
            train_poses: new_poses(),
            eval_poses: new_poses(),
            image_data: new_images(),
            depth_data: new_depths(),
            total_poses: 0,
            unregistered_frame_ids: new_frames(),
            unit_camera,
            eval_every: eval_split_every,
            view_sampler: create_view_sampler(view_sampling_strategy),
            rng: run_rng(seed),
        }
    }

    /// Records the image and the depths of a frame.
    pub fn add_image(&mut self, data: ImageData)
        requires
            old(self).wf(),
        ensures
            final(self).wf(),
            final(self).images() == old(self).images().insert(data.frame_id, data.image),
            final(self).depths() == old(self).depths().insert(data.frame_id, data.depth),
            final(self).train() == old(self).train(),
            final(self).eval() == old(self).eval(),
            final(self).unregistered() == old(self).unregistered(),
            final(self).total() == old(self).total(),
            final(self).sampler() == old(self).sampler(),
            final(self).rng() == old(self).rng(),
            final(self).same_settings(*old(self)),
    {
        insert_image(&mut self.image_data, data.frame_id, data.image);
        insert_depth(&mut self.depth_data, data.frame_id, data.depth);
    }

    /// Records the pose of a frame. A frame that is known is moved; of the new
    /// ones every n-th is held back for evaluation, and the others wait to be
    /// handed out.
    pub fn add_pose(&mut self, data: PoseData)
        requires
            old(self).wf(),
        ensures
            final(self).wf(),
            poses_added(*old(self), data, *final(self)),
            final(self).images() == old(self).images(),
            final(self).depths() == old(self).depths(),
            final(self).sampler() == old(self).sampler(),
            final(self).rng() == old(self).rng(),
            final(self).same_settings(*old(self)),
    {
        let frame_id: u64 = data.frame_id;
        let camera = self.unit_camera.with_pose(data.translation, data.quat);
        let ghost before = *self;
        if has_pose(&self.train_poses, frame_id) {
            insert_pose(&mut self.train_poses, frame_id, camera);
            assert(self.train().dom() =~= before.train().dom());
        } else if has_pose(&self.eval_poses, frame_id) {
            insert_pose(&mut self.eval_poses, frame_id, camera);
            assert(self.eval().dom() =~= before.eval().dom());
        } else {
            let count: usize = self.total_poses.wrapping_add(1);
            proof {
                lemma_counter(
                    (before.train().dom().len() + before.eval().dom().len()) as int,
                    before.total() as int,
                    count as int,
                );
            }
            self.total_poses = count;
            let held_back: bool = match self.eval_every {
                Some(n) => count.is_multiple_of(n),
                None => false,
            };
            if held_back {
                insert_pose(&mut self.eval_poses, frame_id, camera);
                assert(self.eval().dom() =~= before.eval().dom().insert(frame_id));
            } else {
                insert_pose(&mut self.train_poses, frame_id, camera);
                insert_frame(&mut self.unregistered_frame_ids, frame_id);
                assert(self.train().dom() =~= before.train().dom().insert(frame_id));
                assert(!before.unregistered().contains(frame_id));
            }
        }
    }

    /// Whether there is no frame for training.
    pub fn is_empty(&self) -> (empty: bool)
        ensures
            empty == (self.train().dom() == Set::<u64>::empty()),
    {
        no_poses(&self.train_poses)
    }

    /// Whether a frame has been handed out for training.
    pub fn has_views(&self) -> (has: bool)
        ensures
            has == (self.sampler().frames().len() > 0),
    {
        self.view_sampler.count() > 0
    }

    /// How many frames got a pose.
    pub fn total_view_count(&self) -> (count: usize)
        ensures
            count == self.total(),
    {
        self.total_poses
    }

    /// The reciprocals of the weights from which the place of the next
    /// training view has to be drawn, if the strategy is the weighted one.
    pub fn sampling_weights(&self) -> (weights: Option<Vec<u64>>)
        ensures
            weights.is_some() == (self.sampler().strategy() is Weighted),
            weights.is_some() ==> {
                &&& weights->0@.len() == self.sampler().frames().len()
                &&& forall|i: int|
                    0 <= i < weights->0@.len() ==> #[trigger] weights->0@[i] == self.sampler().counts()[i] + 1
            },
    {
        self.view_sampler.inverse_weights()
    }

    /// The generator, to draw the place of the next training view with.
    pub fn generator(&mut self) -> (rng: &mut StdRng)
        ensures
            *rng == old(self).rng(),
            final(self).rng() == *final(rng),
            final(self).train() == old(self).train(),
            final(self).eval() == old(self).eval(),
            final(self).images() == old(self).images(),
            final(self).depths() == old(self).depths(),
            final(self).unregistered() == old(self).unregistered(),
            final(self).total() == old(self).total(),
            final(self).sampler() == old(self).sampler(),
            final(self).same_settings(*old(self)),
            old(self).wf() ==> final(self).wf(),
    {
        &mut self.rng
    }

    /// The next training view: a frame that the sampler picks, with its latest
    /// pose. `drawn` is a place drawn from the sampling weights.
    pub fn get_next_train_batch(&mut self, drawn: Option<usize>) -> (batch: SceneBatch)
        requires
            old(self).wf(),
            old(self).sampler().can_sample(drawn),
        ensures
            final(self).wf(),
            exists|f: u64|
                {
                    &&& #[trigger] old(self).sampler().allows(drawn, f)
                    &&& old(self).sampler().frames().contains(f)
                    &&& batch.camera == old(self).train()[f]
                    &&& batch.image == old(self).images()[f]
                    &&& batch.depth == Some(old(self).depths()[f])
                },
            exists|f: u64, r: &mut StdRng|
                {
                    &&& #[trigger] old(self).sampler().draws(drawn, r, f)
                    &&& *r == old(self).rng()
                    &&& *final(r) == final(self).rng()
                    &&& batch.camera == old(self).train()[f]
                    &&& batch.image == old(self).images()[f]
                    &&& batch.depth == Some(old(self).depths()[f])
                },
            batch.alpha_mode == AlphaMode::Masked,
            final(self).sampler().frames() == old(self).sampler().frames(),
            old(self).sampler().strategy() is Weighted ==> final(self).sampler().counts() == old(
                self,
            ).sampler().counts().update(
                drawn->0 as int,
                counted(old(self).sampler().counts()[drawn->0 as int]),
            ),
            final(self).train() == old(self).train(),
            final(self).eval() == old(self).eval(),
            final(self).images() == old(self).images(),
            final(self).depths() == old(self).depths(),
            final(self).unregistered() == old(self).unregistered(),
            final(self).total() == old(self).total(),
            final(self).same_settings(*old(self)),
    {
        let ghost before = *self;
        let frame_id: u64 = self.view_sampler.sample(&mut self.rng, drawn);
        proof {
            assert(before.sampler().frames().contains(frame_id));
            assert(self.sampler().frames() == before.sampler().frames());
        }
        let camera = get_pose(&self.train_poses, frame_id).unwrap();
        let raster = get_image(&self.image_data, frame_id).unwrap();
        let depth = get_depth(&self.depth_data, frame_id).unwrap();
        assert(before.sampler().allows(drawn, frame_id));
        SceneBatch {
            image: raster,
            alpha_mode: AlphaMode::Masked,
            camera,
            depth: Some(depth),
        }
    }

    /// The frames for training with their poses, in no particular order.
    pub fn train_poses(&self) -> (poses: Vec<(FrameId, Camera)>)
        ensures
            lists_entries(poses@, self.train()),
            forall|f: FrameId, camera: Camera| #[trigger]
                poses@.contains((f, camera)) <==> self.train().dom().contains(f) && self.train()[f] == camera,
            poses@.no_duplicates(),
    {
        let poses = list_poses(&self.train_poses);
        proof {
            lemma_list_is_the_map(poses@, self.train());
        }
        poses
    }

    /// The frames for evaluation with their poses, in no particular order.
    pub fn eval_poses(&self) -> (poses: Vec<(FrameId, Camera)>)
        ensures
            lists_entries(poses@, self.eval()),
            forall|f: FrameId, camera: Camera| #[trigger]
                poses@.contains((f, camera)) <==> self.eval().dom().contains(f) && self.eval()[f] == camera,
            poses@.no_duplicates(),
    {
        let poses = list_poses(&self.eval_poses);
        proof {
            lemma_list_is_the_map(poses@, self.eval());
        }
        poses
    }

    /// The frames for evaluation whose image has arrived, in no particular
    /// order.
    pub fn eval_views(&self) -> (views: Vec<EvalView>)
        ensures
            exists|order: Seq<(FrameId, Camera)>| #[trigger]
                lists_entries(order, self.eval()) && views@ == with_images(order, self.images()),
            forall|view: EvalView| #[trigger]
                views@.contains(view) <==> {
                    &&& self.eval().dom().contains(view.0)
                    &&& self.images().dom().contains(view.0)
                    &&& view.1 == self.eval()[view.0]
                    &&& view.2 == self.images()[view.0]
                },
            forall|i: int, j: int| 0 <= i < j < views@.len() ==> (#[trigger] views@[i]).0 != (#[trigger] views@[j]).0,
            self.eval().dom().finite() ==> views@.len() == self.eval().dom().intersect(self.images().dom()).len(),
    {
        let poses = list_poses(&self.eval_poses);
        let n: usize = poses.len();
        let mut views: Vec<EvalView> = Vec::new();
        for i in 0..n
            invariant
                n == poses@.len(),
                views@ == with_images(poses@.take(i as int), self.images()),
        {
            let (f, camera): (FrameId, Camera) = poses[i];
            assert(poses@.take(i + 1).drop_last() =~= poses@.take(i as int));
            let found = get_image(&self.image_data, f);
            if let Some(raster) = found {
                views.push((f, camera, raster));
            }
        }
        assert(poses@.take(n as int) =~= poses@);
        assert(lists_entries(poses@, self.eval()));
        proof {
            lemma_all_evaluation_frames_are_viewed(poses@, self.eval(), self.images());
        }
        views
    }

    /// Hands out the waiting frames whose image and depths have arrived, each
    /// once and in no particular order, and lets the sampler know them. The
    /// others go on waiting.
    pub fn get_unregistered_frames(&mut self) -> (registered: Vec<RegisteredFrame>)
        requires
            old(self).wf(),
        ensures
            final(self).wf(),
            ({
                let known = old(self).sampler().frames();
                let ids = final(self).sampler().frames().skip(known.len() as int);
                &&& final(self).sampler().frames() == known + ids
                &&& ids.len() == registered@.len()
                &&& ids.no_duplicates()
                &&& forall|f: u64| #[trigger] ids.contains(f) <==> old(self).ready(f)
                &&& forall|i: int|
                    0 <= i < registered@.len() ==> #[trigger] registered@[i] == (
                        old(self).train()[ids[i]],
                        old(self).images()[ids[i]],
                        old(self).depths()[ids[i]],
                    )
            }),
            forall|f: u64| #[trigger]
                final(self).unregistered().contains(f) <==> old(self).unregistered().contains(f) && !old(self).ready(f),
            forall|f: u64| #[trigger]
                final(self).sampler().frames().contains(f) <==> old(self).sampler().frames().contains(f) || (old(
                    self,
                ).unregistered().contains(f) && old(self).images().dom().contains(f) && old(self).depths().dom().contains(f)),
            final(self).train() == old(self).train(),
            final(self).eval() == old(self).eval(),
            final(self).images() == old(self).images(),
            final(self).depths() == old(self).depths(),
            final(self).total() == old(self).total(),
            final(self).rng() == old(self).rng(),
            final(self).same_settings(*old(self)),
            old(self).sampler().strategy() is Weighted ==> final(self).sampler().counts() == old(
                self,
            ).sampler().counts() + Seq::new(registered@.len(), |i: int| 0u64),
    {
        let ghost before = *self;
        let ghost known = before.sampler().frames();
        let ghost counts = before.sampler().counts();
        let waiting = list_frames(&self.unregistered_frame_ids);
        self.unregistered_frame_ids = new_frames();
        let n: usize = waiting.len();
        let mut registered: Vec<RegisteredFrame> = Vec::new();
        let ghost ready = |f: u64| before.ready(f);
        let ghost frame_data = |f: u64| (before.train()[f], before.images()[f], before.depths()[f]);
        proof {
            reveal(Seq::filter);
            assert(waiting@.take(0).filter(ready) =~= Seq::<u64>::empty());
            assert(known + Seq::<u64>::empty() =~= known);
            assert(Seq::<u64>::empty().map_values(frame_data) =~= registered@);
        }
        assert(counts + Seq::new(0, |i: int| 0u64) =~= counts);
        for i in 0..n
            invariant
                n == waiting@.len(),
                waiting@.no_duplicates(),
                before.wf(),
                known == before.sampler().frames(),
                counts == before.sampler().counts(),
                forall|f: u64| waiting@.contains(f) <==> before.unregistered().contains(f),
                self.train() == before.train(),
                self.eval() == before.eval(),
                self.images() == before.images(),
                self.depths() == before.depths(),
                self.total() == before.total(),
                self.rng() == before.rng(),
                self.same_settings(before),
                self.sampler().frames() == known + waiting@.take(i as int).filter(ready),
                registered@ == waiting@.take(i as int).filter(ready).map_values(frame_data),
                ready == (|f: u64| before.ready(f)),
                frame_data == (|f: u64| (before.train()[f], before.images()[f], before.depths()[f])),
                forall|f: u64| #[trigger]
                    self.unregistered().contains(f) <==> !before.ready(f) && waiting@.take(i as int).contains(f),
                before.sampler().strategy() is Weighted ==> self.sampler().counts() == counts + Seq::new(
                    registered@.len(),
                    |k: int| 0u64,
                ),
        {
            let f: u64 = waiting[i];
            let ghost taken = waiting@.take(i as int);
            let ghost left_over = self.unregistered();
            proof {
                assert(waiting@.contains(f));
                assert(waiting@.take(i + 1) =~= taken.push(f));
                assert(taken.push(f).drop_last() =~= taken);
                reveal(Seq::filter);
                lemma_push_contains(taken, f);
            }
            let found_image = get_image(&self.image_data, f);
            let found_depth = get_depth(&self.depth_data, f);
            match (found_image, found_depth) {
                (Some(raster), Some(depth)) => {
                    assert(before.ready(f));
                    assert(before.train().dom().contains(f));
                    let camera = get_pose(&self.train_poses, f).unwrap();
                    self.view_sampler.added_new_item(f);
                    registered.push((camera, raster, depth));
                    proof {
                        let ids = taken.filter(ready);
                        assert(waiting@.take(i + 1).filter(ready) == ids.push(f));
                        assert(known + ids.push(f) =~= (known + ids).push(f));
                        assert(ids.push(f).map_values(frame_data) =~= ids.map_values(frame_data).push(frame_data(f)));
                        assert(Seq::new(ids.push(f).len(), |k: int| 0u64) =~= Seq::new(ids.len(), |k: int| 0u64).push(0));
                        assert(counts + Seq::new(ids.len(), |k: int| 0u64).push(0) =~= (counts + Seq::new(
                            ids.len(),
                            |k: int| 0u64,
                        )).push(0));
                    }
                },
                _ => {
                    insert_frame(&mut self.unregistered_frame_ids, f);
                    assert(!before.ready(f));
                    assert(waiting@.take(i + 1).filter(ready) == taken.filter(ready));
                },
            }
            assert(self.unregistered() == if before.ready(f) {
                left_over
            } else {
                left_over.insert(f)
            });
            assert forall|g: u64| #[trigger]
                self.unregistered().contains(g) <==> !before.ready(g) && waiting@.take(i + 1).contains(g) by {
                assert(left_over.contains(g) <==> !before.ready(g) && taken.contains(g));
            }
        }
        proof {
            assert(waiting@.take(n as int) =~= waiting@);
            let ids = waiting@.filter(ready);
            let all = known + ids;
            assert(self.sampler().frames() == all);
            assert(all.skip(known.len() as int) =~= ids);
            lemma_filter(waiting@, ready);
            assert forall|f: u64| #[trigger] all.contains(f) <==> known.contains(f) || ids.contains(f) by {
                lemma_concat_contains(known, ids, f);
            }
            assert(all.no_duplicates()) by {
                assert forall|k: int, l: int| 0 <= k < all.len() && 0 <= l < all.len() && k != l implies all[k] != all[l] by {
                    if k < known.len() && l >= known.len() {
                        assert(ids.contains(ids[l - known.len()]));
                        assert(known.contains(known[k]));
                    } else if l < known.len() && k >= known.len() {
                        assert(ids.contains(ids[k - known.len()]));
                        assert(known.contains(known[l]));
                    }
                }
            }
        }
        registered
    }

    /// Whether the frame waits and all of its data has arrived.
    pub open spec fn ready(self, f: u64) -> bool {
        self.unregistered().contains(f) && self.images().dom().contains(f) && self.depths().dom().contains(f)
    }
}

/// What a pose changes. A frame that is known is moved; of the new ones every
/// n-th is held back for evaluation, and the others wait to be handed out.
pub open spec fn poses_added(before: IncrementalDatabase, data: PoseData, after: IncrementalDatabase) -> bool {
    let f = data.frame_id;
    let camera = before.unit_camera().posed(data.translation, data.quat);
    let count = ((before.total() + 1) % (usize::MAX + 1)) as usize;
    if before.train().dom().contains(f) {
        &&& after.train() == before.train().insert(f, camera)
        &&& after.eval() == before.eval()
        &&& after.unregistered() == before.unregistered()
        &&& after.total() == before.total()
    } else if before.eval().dom().contains(f) {
        &&& after.train() == before.train()
        &&& after.eval() == before.eval().insert(f, camera)
        &&& after.unregistered() == before.unregistered()
        &&& after.total() == before.total()
    } else if is_eval_frame(before.eval_every(), count) {
        &&& after.train() == before.train()
        &&& after.eval() == before.eval().insert(f, camera)
        &&& after.unregistered() == before.unregistered()
        &&& after.total() == count
    } else {
        &&& after.train() == before.train().insert(f, camera)
        &&& after.eval() == before.eval()
        &&& after.unregistered() == before.unregistered().insert(f)
        &&& after.total() == count
    }
}

/// The poses whose frame has an image, with the image, in the same order.
pub open spec fn with_images(poses: Seq<(FrameId, Camera)>, images: Map<u64, Arc<RasterImage>>) -> Seq<EvalView>
    decreases poses.len(),
{
    if poses.len() == 0 {
        Seq::empty()
    } else {
        let rest = with_images(poses.drop_last(), images);
        let (f, camera) = poses.last();
        if images.dom().contains(f) {
            rest.push((f, camera, images[f]))
        } else {
            rest
        }
    }
}

/// A list of exactly the entries of a map, each once.
pub open spec fn lists_entries(list: Seq<(FrameId, Camera)>, poses: Map<u64, Camera>) -> bool {
    &&& forall|i: int, j: int| 0 <= i < j < list.len() ==> (#[trigger] list[i]).0 != (#[trigger] list[j]).0
    &&& forall|i: int|
        0 <= i < list.len() ==> poses.dom().contains((#[trigger] list[i]).0) && poses[list[i].0] == list[i].1
    &&& forall|f: u64| #[trigger]
        poses.dom().contains(f) ==> exists|i: int| 0 <= i < list.len() && (#[trigger] list[i]).0 == f
}

/// A list of the entries of a map has each entry once, and nothing else.
pub proof fn lemma_list_is_the_map(list: Seq<(FrameId, Camera)>, poses: Map<u64, Camera>)
    requires
        lists_entries(list, poses),
    ensures
        forall|f: FrameId, camera: Camera| #[trigger]
            list.contains((f, camera)) <==> poses.dom().contains(f) && poses[f] == camera,
        list.no_duplicates(),
        poses.dom().finite() ==> list.len() == poses.dom().len(),
{
    assert forall|f: FrameId, camera: Camera| #[trigger]
        list.contains((f, camera)) <==> poses.dom().contains(f) && poses[f] == camera by {
        if poses.dom().contains(f) && poses[f] == camera {
            let i = choose|i: int| 0 <= i < list.len() && (#[trigger] list[i]).0 == f;
            assert(list[i] == (f, camera));
        }
    }
    let ids = list.map_values(|entry: (FrameId, Camera)| entry.0);
    assert(ids.no_duplicates());
    assert(ids.to_set() =~= poses.dom()) by {
        assert forall|f: u64| ids.to_set().contains(f) <==> poses.dom().contains(f) by {
            if poses.dom().contains(f) {
                let i = choose|i: int| 0 <= i < list.len() && (#[trigger] list[i]).0 == f;
                assert(ids[i] == f);
            }
            if ids.contains(f) {
                let i = choose|i: int| 0 <= i < ids.len() && ids[i] == f;
                assert(list[i].0 == f);
            }
        }
    }
    ids.unique_seq_to_set();
}

/// The evaluation views are those of all the frames that are held back and have
/// an image: each once, with its own camera and its own image, and no other.
pub proof fn lemma_all_evaluation_frames_are_viewed(
    order: Seq<(FrameId, Camera)>,
    eval: Map<u64, Camera>,
    images: Map<u64, Arc<RasterImage>>,
)
    requires
        lists_entries(order, eval),
    ensures
        forall|view: EvalView| #[trigger]
            with_images(order, images).contains(view) <==> {
                &&& eval.dom().contains(view.0)
                &&& images.dom().contains(view.0)
                &&& view.1 == eval[view.0]
                &&& view.2 == images[view.0]
            },
        forall|i: int, j: int|
            0 <= i < j < with_images(order, images).len() ==> (#[trigger] with_images(order, images)[i]).0 != (
            #[trigger] with_images(order, images)[j]).0,
        eval.dom().finite() ==> with_images(order, images).len() == eval.dom().intersect(images.dom()).len(),
{
    let views = with_images(order, images);
    lemma_with_images(order, images);
    lemma_list_is_the_map(order, eval);
    assert forall|view: EvalView| #[trigger]
        views.contains(view) <==> {
            &&& eval.dom().contains(view.0)
            &&& images.dom().contains(view.0)
            &&& view.1 == eval[view.0]
            &&& view.2 == images[view.0]
        } by {
        assert(order.contains((view.0, view.1)) <==> eval.dom().contains(view.0) && eval[view.0] == view.1);
    }
    let ids = views.map_values(|view: EvalView| view.0);
    assert(ids.no_duplicates());
    assert(ids.to_set() =~= eval.dom().intersect(images.dom())) by {
        assert forall|f: u64| ids.to_set().contains(f) <==> eval.dom().intersect(images.dom()).contains(f) by {
            if eval.dom().contains(f) && images.dom().contains(f) {
                let view: EvalView = (f, eval[f], images[f]);
                assert(views.contains(view));
                let i = choose|i: int| 0 <= i < views.len() && views[i] == view;
                assert(ids[i] == f);
            }
            if ids.contains(f) {
                let i = choose|i: int| 0 <= i < ids.len() && ids[i] == f;
                assert(views.contains(views[i]));
            }
        }
    }
    ids.unique_seq_to_set();
}

proof fn lemma_with_images(poses: Seq<(FrameId, Camera)>, images: Map<u64, Arc<RasterImage>>)
    requires
        forall|i: int, j: int| 0 <= i < j < poses.len() ==> (#[trigger] poses[i]).0 != (#[trigger] poses[j]).0,
    ensures
        forall|view: EvalView| #[trigger]
            with_images(poses, images).contains(view) <==> {
                &&& poses.contains((view.0, view.1))
                &&& images.dom().contains(view.0)
                &&& view.2 == images[view.0]
            },
        forall|i: int, j: int|
            0 <= i < j < with_images(poses, images).len() ==> (#[trigger] with_images(poses, images)[i]).0 != (
            #[trigger] with_images(poses, images)[j]).0,
    decreases poses.len(),
{
    if poses.len() > 0 {
        let rest = poses.drop_last();
        let last = poses.last();
        lemma_with_images(rest, images);
        let before = with_images(rest, images);
        let views = with_images(poses, images);
        assert(poses[poses.len() - 1] == last);
        assert forall|view: EvalView| #[trigger]
            views.contains(view) <==> {
                &&& poses.contains((view.0, view.1))
                &&& images.dom().contains(view.0)
                &&& view.2 == images[view.0]
            } by {
            if poses.contains((view.0, view.1)) {
                let i = choose|i: int| 0 <= i < poses.len() && poses[i] == (view.0, view.1);
                if i < rest.len() {
                    assert(rest[i] == (view.0, view.1));
                    assert(rest.contains((view.0, view.1)));
                    if before.contains(view) {
                        let k = choose|k: int| 0 <= k < before.len() && before[k] == view;
                        assert(views[k] == view);
                    }
                } else if images.dom().contains(view.0) && view.2 == images[view.0] {
                    assert(views[views.len() - 1] == view);
                }
            }
            if views.contains(view) {
                let k = choose|k: int| 0 <= k < views.len() && views[k] == view;
                if k < before.len() {
                    assert(before[k] == view);
                    assert(before.contains(view));
                    let i = choose|i: int| 0 <= i < rest.len() && rest[i] == (view.0, view.1);
                    assert(poses[i] == (view.0, view.1));
                }
            }
        }
        assert forall|i: int, j: int| 0 <= i < j < views.len() implies (#[trigger] views[i]).0 != (
        #[trigger] views[j]).0 by {
            assert(views[i] == before[i]);
            if j < before.len() {
                assert(views[j] == before[j]);
            } else {
                assert(before.contains(before[i]));
                let k = choose|k: int| 0 <= k < rest.len() && rest[k] == (before[i].0, before[i].1);
                assert(poses[k] == rest[k]);
            }
        }
    }
}

proof fn lemma_filter(s: Seq<u64>, pred: spec_fn(u64) -> bool)
    requires
        s.no_duplicates(),
    ensures
        s.filter(pred).no_duplicates(),
        forall|f: u64| #[trigger] s.filter(pred).contains(f) <==> s.contains(f) && pred(f),
    decreases s.len(),
{
    reveal(Seq::filter);
    if s.len() > 0 {
        let rest = s.drop_last();
        lemma_filter(rest, pred);
        assert(s =~= rest.push(s.last()));
        lemma_push_contains(rest, s.last());
        lemma_push_contains(rest.filter(pred), s.last());
        let kept = rest.filter(pred);
        assert(!kept.contains(s.last()));
        assert forall|i: int| 0 <= i < kept.len() implies kept[i] != s.last() by {
            assert(kept.contains(kept[i]));
        }
    }
}

proof fn lemma_push_contains(s: Seq<u64>, x: u64)
    ensures
        forall|f: u64| #[trigger] s.push(x).contains(f) <==> s.contains(f) || f == x,
{
    assert forall|f: u64| #[trigger] s.push(x).contains(f) <==> s.contains(f) || f == x by {
        if s.contains(f) {
            let i = choose|i: int| 0 <= i < s.len() && s[i] == f;
            assert(s.push(x)[i] == f);
        }
        assert(s.push(x)[s.len() as int] == x);
    }
}

proof fn lemma_concat_contains(a: Seq<u64>, b: Seq<u64>, f: u64)
    ensures
        (a + b).contains(f) <==> a.contains(f) || b.contains(f),
{
    if a.contains(f) {
        let i = choose|i: int| 0 <= i < a.len() && a[i] == f;
        assert((a + b)[i] == f);
    }
    if b.contains(f) {
        let i = choose|i: int| 0 <= i < b.len() && b[i] == f;
        assert((a + b)[a.len() + i] == f);
    }
}

/// Once image and depths of a waiting frame have arrived, the frame is handed
/// out, and from then on it is never handed out again.
pub proof fn lemma_frames_are_handed_out_once(before: IncrementalDatabase, after: IncrementalDatabase, frame_id: FrameId)
    requires
        before.wf(),
        after.wf(),
        before.sampler().frames().contains(frame_id),
        after.sampler().frames().len() >= before.sampler().frames().len(),
        after.sampler().frames().take(before.sampler().frames().len() as int) == before.sampler().frames(),
    ensures
        !before.ready(frame_id),
        !after.ready(frame_id),
{
    let known = before.sampler().frames();
    let i = choose|i: int| 0 <= i < known.len() && known[i] == frame_id;
    assert(after.sampler().frames()[i] == after.sampler().frames().take(known.len() as int)[i]);
    assert(after.sampler().frames().contains(frame_id));
}

proof fn lemma_counter(n: int, total: int, count: int)
    requires
        0 <= n,
        total == n % (usize::MAX + 1),
        count == (if total + 1 > usize::MAX { 0 } else { total + 1 }),
    ensures
        count == (n + 1) % (usize::MAX + 1),
        count == (total + 1) % (usize::MAX + 1),
{
    let m = usize::MAX + 1;
    vstd::arithmetic::div_mod::lemma_fundamental_div_mod(n, m);
    let q = n / m;
    vstd::arithmetic::mul::lemma_mul_is_commutative(m, q);
    if total + 1 == m {
        assert(n + 1 == (q + 1) * m + 0) by (nonlinear_arith)
            requires
                n == q * m + total,
                total + 1 == m,
        ;
        vstd::arithmetic::div_mod::lemma_fundamental_div_mod_converse(n + 1, m, q + 1, 0);
        vstd::arithmetic::div_mod::lemma_mod_self_0(m);
    } else {
        vstd::arithmetic::div_mod::lemma_fundamental_div_mod_converse(n + 1, m, q, total + 1);
        vstd::arithmetic::div_mod::lemma_small_mod((total + 1) as nat, m as nat);
    }
}

/// A frame waits to be handed out until both its image and its depths have
/// arrived, in whatever order they do.
pub proof fn lemma_frames_wait_for_their_data(database: IncrementalDatabase, f: FrameId)
    requires
        database.wf(),
        database.train().dom().contains(f),
        !database.sampler().frames().contains(f),
    ensures
        database.unregistered().contains(f),
        database.ready(f) <==> database.images().dom().contains(f) && database.depths().dom().contains(f),
{
}

/// What a pose does. The frame gets the pose, with the intrinsics that all
/// cameras share, and every other frame keeps its own. A frame that is known
/// stays where it is, for training or for evaluation. A new one is held back for
/// evaluation exactly if the number of frames, itself included, is a multiple of
/// the interval; otherwise it waits to be handed out.
pub proof fn lemma_poses_are_recorded(before: IncrementalDatabase, data: PoseData, after: IncrementalDatabase, other: FrameId)
    requires
        before.wf(),
        poses_added(before, data, after),
        other != data.frame_id,
    ensures
        ({
            let f = data.frame_id;
            let camera = if after.train().dom().contains(f) {
                after.train()[f]
            } else {
                after.eval()[f]
            };
            &&& after.train().dom().contains(f) != after.eval().dom().contains(f)
            &&& camera.position == data.translation
            &&& camera.rotation == data.quat
            &&& camera.fov_x == before.unit_camera().fov_x && camera.fov_y == before.unit_camera().fov_y
            &&& camera.center_uv == before.unit_camera().center_uv
            &&& before.train().dom().contains(f) ==> after.train().dom().contains(f)
            &&& before.eval().dom().contains(f) ==> after.eval().dom().contains(f)
            &&& before.train().dom().contains(f) || before.eval().dom().contains(f) ==> {
                &&& after.total() == before.total()
                &&& after.unregistered() == before.unregistered()
            }
            &&& !before.train().dom().contains(f) && !before.eval().dom().contains(f) && before.total() < usize::MAX ==> {
                &&& after.total() == before.total() + 1
                &&& after.eval().dom().contains(f) <==> match before.eval_every() {
                    Some(n) => n > 0 && (before.total() + 1) % (n as int) == 0,
                    None => false,
                }
                &&& after.train().dom().contains(f) <==> after.unregistered().contains(f)
            }
        }),
        after.train().dom().contains(other) == before.train().dom().contains(other),
        after.train().dom().contains(other) ==> after.train()[other] == before.train()[other],
        after.eval().dom().contains(other) == before.eval().dom().contains(other),
        after.eval().dom().contains(other) ==> after.eval()[other] == before.eval()[other],
        after.unregistered().contains(other) == before.unregistered().contains(other),
{
    let f = data.frame_id;
    if !before.train().dom().contains(f) {
        assert(!before.unregistered().contains(f));
    }
    if before.total() < usize::MAX {
        vstd::arithmetic::div_mod::lemma_small_mod((before.total() + 1) as nat, (usize::MAX + 1) as nat);
    }
}

/// Databases with the same settings agree on the intrinsics, on how often a frame
/// is held back, and on how views are sampled.
pub proof fn lemma_same_settings(a: IncrementalDatabase, b: IncrementalDatabase)
    ensures
        a.same_settings(b) <==> a.unit_camera() == b.unit_camera() && a.eval_every() == b.eval_every()
            && a.sampler().strategy() == b.sampler().strategy(),
{
}

} // verus!
