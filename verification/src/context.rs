//! Training on a database that fills up meanwhile.
use crate::camera::Camera;
use crate::config::{render_mode_or_default, DensifyScaleMode, SplatRenderMode, TrainConfig, TrainStreamConfig};
use crate::database::{
    lemma_list_is_the_map, lists_entries, poses_added, with_images, AlphaMode, EvalView, ImageData, IncrementalDatabase, PoseData, RegisteredFrame, SceneBatch,
};
use crate::ieee::{less64, lt64};
use crate::landmarks::{
    add_in_free_cells, compute_occupancy_grid, computes_near, computes_projection, grid_of, keeps_distance,
    lemma_adding_again_adds_nothing, lemma_first_free_point, lemma_grid_holds_every_gaussian, lemma_one_point_per_cell,
    lemma_packing_can_be_read_back, lemma_points_are_recorded, lemma_points_keep_their_distance, mark_added, marked,
    pack_points, packed_colors, packed_log_scales, packed_means, pixels_of, placed, project_pixels, projected, repeated,
    unmarked, with_points, GridState, Occupant, OccupancyGrid, ProjectedPixel, Projection, SplatArrays,
};
use crate::pixels::{
    computes_pixel_weight, drawable, has_depth, injectable, injection_pixels, lemma_picked, multiple, on_strided_grid,
    picked, pixel_weights, pixels_with_depth, sample_count, strided_depth_points, weights_at, DrawPlan,
};
use crate::raster::{share, RasterImage};
use crate::text::to_decimal;
use crate::transforms::PoseUpdate;
use crate::ui::{
    dataset_message, image_name, lists_views, opening, opening_messages, splats_news, splats_news_messages, status,
    status_messages, ProcessMessage, SceneView, SplatInfo,
};
use crate::view_sampling::{counted, FrameId, ViewSampler};
use rand::rngs::StdRng;
use std::collections::HashMap;
use std::sync::Arc;
use vstd::prelude::*;

verus! {

broadcast use vstd::std_specs::hash::group_hash_axioms;

/// How a growing scene is trained.
#[derive(Clone)]
pub struct IncrementalTrainConfig {
    /// View sampling strategy
    pub view_sampling_strategy: String,
    /// Min distance to other Gaussians for a landmark to be added
    pub depth_landmark_min_dist: u32,
    /// Scale factor multiplied to newly added landmarks
    pub depth_landmark_scale_factor: u32,
    /// How often new Gaussians should be added
    pub add_gaussians_every_secs: u64,
    /// How many training iterations between hard opacity resets (0 disables)
    pub opacity_reset_every: u32,
    /// Opacity value every gaussian is capped to on a hard reset
    pub opacity_reset_value: u32,
    /// How many training iterations between soft opacity decays (0 disables)
    pub opacity_decay_every: u32,
    /// Amount subtracted from each Gaussian's opacity on a soft decay
    pub opacity_decay_amount: u32,
    /// Opacity given to Gaussians on initialization
    pub initial_opacity: u32,
}

/// How a new frame is densified.
#[derive(Clone, Copy, Debug)]
pub struct DensifyConfig {
    pub steps: u32,
    pub every: u32,
    pub init_depth_stride: usize,
    pub scale_mode: DensifyScaleMode,
    pub lr_mean: u64,
    pub lr_scale: u64,
    pub ssim_weight: u32,
    pub depth_loss: u32,
    pub anti_needle_loss: u32,
}

impl DensifyConfig {
    /// The optimiser settings for a burst on one frame: those of `base`, but
    /// with the rates and weights for densification. The rate of the means
    /// ends as it starts.
    pub open spec fn burst(self, base: TrainConfig) -> TrainConfig {
        TrainConfig {
            total_train_iters: self.steps,
            lr_mean: self.lr_mean,
            lr_mean_end: self.lr_mean,
            lr_scale: self.lr_scale,
            ssim_weight: self.ssim_weight,
            depth_loss_weight: self.depth_loss,
            anti_needle_loss_weight: self.anti_needle_loss,
            ..base
        }
    }

    /// The optimiser settings for a burst on one frame.
    pub fn burst_train_config(&self, base: TrainConfig) -> (train: TrainConfig)
        ensures
            train == self.burst(base),
            train.total_train_iters == self.steps,
            train.lr_mean == self.lr_mean,
            train.lr_mean_end == self.lr_mean,
            train.lr_scale == self.lr_scale,
            train.ssim_weight == self.ssim_weight,
            train.depth_loss_weight == self.depth_loss,
            train.anti_needle_loss_weight == self.anti_needle_loss,
            train.lr_scale_end == base.lr_scale_end,
            train.lr_opac == base.lr_opac,
            train.lr_opac_end == base.lr_opac_end,
            train.refine_every == base.refine_every,
            train.render_mode == base.render_mode,
            train.max_cov_scale == base.max_cov_scale,
            train.max_cov_scale_loss_weight == base.max_cov_scale_loss_weight,
            train.pose_opt == base.pose_opt,
            train.lr_pose == base.lr_pose,
            train.lr_pose_end == base.lr_pose_end,
    {
        let mut train = base;
        train.total_train_iters = self.steps;
        train.lr_mean = self.lr_mean;
        train.lr_mean_end = self.lr_mean;
        train.lr_scale = self.lr_scale;
        train.ssim_weight = self.ssim_weight;
        train.depth_loss_weight = self.depth_loss;
        train.anti_needle_loss_weight = self.anti_needle_loss;
        train
    }
}

/// All settings of a context.
#[derive(Clone)]
pub struct ContextConfig {
    pub stream: Arc<TrainStreamConfig>,
    pub densify: DensifyConfig,
}

impl ContextConfig {
    /// The SH degree of the splats.
    pub open spec fn sh_degree(self) -> u32 {
        self.stream.model_config.sh_degree
    }

    /// How the splats are rasterised.
    pub open spec fn render_mode(self) -> SplatRenderMode {
        self.stream.render_mode()
    }

    /// How the scene grows.
    pub open spec fn train(self) -> IncrementalTrainConfig {
        self.stream.incremental_train_config
    }
}

/// Up to this many views the up axis still follows the cameras.
pub const UP_AXIS_VIEWS: usize = 50;

/// Every how many iterations the viewers hear of the progress.
pub const STATUS_EVERY: u32 = 100;

/// What a context knows, as mathematical values.
#[verifier::ext_equal]
pub struct ContextState {
    pub database: IncrementalDatabase,
    pub config: ContextConfig,
    pub splats: Option<SplatInfo>,
    pub has_trainer: bool,
    pub iteration: u32,
    /// Where splats are, if it is known.
    pub grid: Option<GridState>,
    pub up_axis: Option<[u32; 3]>,
    /// How many cameras the up axis was averaged over.
    pub up_axis_views: u32,
    /// Whether the viewers know that loading is done.
    pub told: bool,
}

/// How many splats there are.
pub open spec fn count_of(splats: Option<SplatInfo>) -> nat {
    match splats {
        Some(info) => info.num_splats as nat,
        None => 0,
    }
}

/// Trains splats on the frames of a database.
pub struct IncrementalTrainContext {
    database: IncrementalDatabase,
    config: ContextConfig,
    splats: Option<SplatInfo>,
    has_trainer: bool,
    training_iteration: u32,
    occupancy_grid: Option<OccupancyGrid>,
    up_axis: Option<[u32; 3]>,
    up_axis_factor_count: u32,
    splat_sender_initialized: bool,
}

impl View for IncrementalTrainContext {
    type V = ContextState;

    closed spec fn view(&self) -> ContextState {
        ContextState {
            database: self.database,
            config: self.config,
            splats: self.splats,
            has_trainer: self.has_trainer,
            iteration: self.training_iteration,
            grid: match self.occupancy_grid {
                Some(grid) => Some(grid@),
                None => None,
            },
            up_axis: self.up_axis,
            up_axis_views: self.up_axis_factor_count,
            told: self.splat_sender_initialized,
        }
    }
}

/// What happens when it is time to add Gaussians.
pub enum Growth {
    /// No frame is ready: the splats are refined.
    Refine,
    /// These frames get Gaussians.
    Extend(Vec<RegisteredFrame>),
}

/// Whether something that is done every so many iterations is done after this
/// one. Zero disables it.
pub open spec fn recurs(iteration: u32, every: u32) -> bool {
    every != 0 && multiple(iteration as int, every as int)
}

/// What is due at the end of a pass of the training loop.
#[derive(Clone, Copy, Debug, PartialEq, Eq)]
pub struct Duties {
    pub refine: bool,
    /// Whether every opacity is capped.
    pub reset_opacity: bool,
    /// Whether every opacity is lowered.
    pub decay_opacity: bool,
    pub status: bool,
    pub eval: bool,
}

impl IncrementalTrainContext {
    /// A context without splats.
    pub fn new(database: IncrementalDatabase, config: ContextConfig) -> (context: Self)
        ensures
            context@ == (ContextState {
                database,
                config,
                splats: None,
                has_trainer: false,
                iteration: 0,
                grid: None,
                up_axis: None,
                up_axis_views: 0,
                told: false,
            }),
    {
        IncrementalTrainContext {
            database,
            config,
            splats: None,
            has_trainer: false,
            training_iteration: 0,
            occupancy_grid: None,
            up_axis: None,
            up_axis_factor_count: 0,
            splat_sender_initialized: false,
        }
    }

    /// Records the image and the depths of a frame.
    pub fn add_image(&mut self, data: ImageData)
        requires
            old(self)@.database.wf(),
        ensures
            final(self)@.database.wf(),
            final(self)@ == (ContextState { database: final(self)@.database, ..old(self)@ }),
            final(self)@.database.images() == old(self)@.database.images().insert(data.frame_id, data.image),
            final(self)@.database.depths() == old(self)@.database.depths().insert(data.frame_id, data.depth),
            final(self)@.database.train() == old(self)@.database.train(),
            final(self)@.database.eval() == old(self)@.database.eval(),
            final(self)@.database.unregistered() == old(self)@.database.unregistered(),
            final(self)@.database.total() == old(self)@.database.total(),
            final(self)@.database.sampler() == old(self)@.database.sampler(),
            final(self)@.database.rng() == old(self)@.database.rng(),
            final(self)@.database.same_settings(old(self)@.database),
    {
        self.database.add_image(data);
    }

    /// Records the pose of a frame.
    pub fn add_pose(&mut self, data: PoseData)
        requires
            old(self)@.database.wf(),
        ensures
            final(self)@.database.wf(),
            final(self)@ == (ContextState { database: final(self)@.database, ..old(self)@ }),
            poses_added(old(self)@.database, data, final(self)@.database),
            final(self)@.database.images() == old(self)@.database.images(),
            final(self)@.database.depths() == old(self)@.database.depths(),
            final(self)@.database.sampler() == old(self)@.database.sampler(),
            final(self)@.database.rng() == old(self)@.database.rng(),
            final(self)@.database.same_settings(old(self)@.database),
    {
        self.database.add_pose(data);
    }

    /// How many training steps have been started.
    pub fn iteration(&self) -> (iteration: u32)
        ensures
            iteration == self@.iteration,
    {
        self.training_iteration
    }

    /// How many cameras the up axis was averaged over.
    pub fn up_axis_views(&self) -> (count: u32)
        ensures
            count == self@.up_axis_views,
    {
        self.up_axis_factor_count
    }

    /// Whether a frame has been handed out for training.
    pub fn has_views(&self) -> (has: bool)
        ensures
            has == (self@.database.sampler().frames().len() > 0),
    {
        self.database.has_views()
    }

    /// The reciprocals of the weights from which the place of the next
    /// training view has to be drawn, if the strategy is the weighted one.
    pub fn sampling_weights(&self) -> (weights: Option<Vec<u64>>)
        ensures
            weights.is_some() == (self@.database.sampler().strategy() is Weighted),
            weights.is_some() ==> {
                &&& weights->0@.len() == self@.database.sampler().frames().len()
                &&& forall|i: int|
                    0 <= i < weights->0@.len() ==> #[trigger] weights->0@[i] == self@.database.sampler().counts()[i] + 1
            },
    {
        self.database.sampling_weights()
    }

    /// The generator, to draw the place of the next training view with.
    pub fn generator(&mut self) -> (rng: &mut StdRng)
        ensures
            *rng == old(self)@.database.rng(),
            final(self)@ == (ContextState { database: final(self)@.database, ..old(self)@ }),
            final(self)@.database.rng() == *final(rng),
            final(self)@.database.train() == old(self)@.database.train(),
            final(self)@.database.eval() == old(self)@.database.eval(),
            final(self)@.database.images() == old(self)@.database.images(),
            final(self)@.database.depths() == old(self)@.database.depths(),
            final(self)@.database.unregistered() == old(self)@.database.unregistered(),
            final(self)@.database.total() == old(self)@.database.total(),
            final(self)@.database.sampler() == old(self)@.database.sampler(),
            final(self)@.database.same_settings(old(self)@.database),
            old(self)@.database.wf() ==> final(self)@.database.wf(),
    {
        self.database.generator()
    }

    /// Whether it is time to add Gaussians again.
    pub fn growth_due(&self, elapsed_secs: u64) -> (due: bool)
        ensures
            due == less64(self@.config.train().add_gaussians_every_secs, elapsed_secs),
            due == less64(self@.config.stream.incremental_train_config.add_gaussians_every_secs, elapsed_secs),
    {
        lt64(self.config.stream.incremental_train_config.add_gaussians_every_secs, elapsed_secs)
    }

    /// Fetches the frames that are ready for Gaussians.
    pub fn grow(&mut self) -> (growth: Growth)
        requires
            old(self)@.database.wf(),
        ensures
            final(self)@.database.wf(),
            final(self)@ == (ContextState { database: final(self)@.database, ..old(self)@ }),
            ({
                let known = old(self)@.database.sampler().frames();
                let ids = final(self)@.database.sampler().frames().skip(known.len() as int);
                &&& final(self)@.database.sampler().frames() == known + ids
                &&& ids.no_duplicates()
                &&& forall|f: u64| #[trigger] ids.contains(f) <==> old(self)@.database.ready(f)
                &&& (growth is Refine) == (ids.len() == 0)
                &&& growth is Extend ==> {
                    &&& growth->Extend_0@.len() == ids.len()
                    &&& forall|i: int|
                        0 <= i < ids.len() ==> #[trigger] growth->Extend_0@[i] == (
                            old(self)@.database.train()[ids[i]],
                            old(self)@.database.images()[ids[i]],
                            old(self)@.database.depths()[ids[i]],
                        )
                }
            }),
            forall|f: u64| #[trigger]
                final(self)@.database.unregistered().contains(f) <==> old(self)@.database.unregistered().contains(f)
                    && !old(self)@.database.ready(f),
            final(self)@.database.train() == old(self)@.database.train(),
            final(self)@.database.eval() == old(self)@.database.eval(),
            final(self)@.database.images() == old(self)@.database.images(),
            final(self)@.database.depths() == old(self)@.database.depths(),
            final(self)@.database.total() == old(self)@.database.total(),
            final(self)@.database.same_settings(old(self)@.database),
            final(self)@.database.rng() == old(self)@.database.rng(),
            old(self)@.database.sampler().strategy() is Weighted ==> final(self)@.database.sampler().counts() == old(
                self,
            )@.database.sampler().counts() + Seq::new(
                (final(self)@.database.sampler().frames().len() - old(self)@.database.sampler().frames().len()) as nat,
                |i: int| 0u64,
            ),
    {
        let frames = self.database.get_unregistered_frames();
        if frames.len() == 0 {
            Growth::Refine
        } else {
            Growth::Extend(frames)
        }
    }

    /// Whether a training step can be made.
    pub fn can_train(&self) -> (can: bool)
        ensures
            can == (self@.has_trainer && self@.splats.is_some() && self@.database.train().dom() != Set::<
                u64,
            >::empty()),
    {
        self.has_trainer && self.splats.is_some() && !self.database.is_empty()
    }

    /// Starts a training step. The splats are about to move, so it is
    /// not known any more where they are.
    pub fn train_step(&mut self, drawn: Option<usize>) -> (batch: SceneBatch)
        requires
            old(self)@.database.wf(),
            old(self)@.database.sampler().can_sample(drawn),
            old(self)@.iteration < u32::MAX,
        ensures
            final(self)@.database.wf(),
            final(self)@ == (ContextState {
                database: final(self)@.database,
                iteration: (old(self)@.iteration + 1) as u32,
                grid: None,
                ..old(self)@
            }),
            exists|f: u64|
                {
                    &&& #[trigger] old(self)@.database.sampler().allows(drawn, f)
                    &&& old(self)@.database.sampler().frames().contains(f)
                    &&& batch.camera == old(self)@.database.train()[f]
                    &&& batch.image == old(self)@.database.images()[f]
                    &&& batch.depth == Some(old(self)@.database.depths()[f])
                },
            exists|f: u64, r: &mut StdRng|
                {
                    &&& #[trigger] old(self)@.database.sampler().draws(drawn, r, f)
                    &&& *r == old(self)@.database.rng()
                    &&& *final(r) == final(self)@.database.rng()
                    &&& batch.camera == old(self)@.database.train()[f]
                    &&& batch.image == old(self)@.database.images()[f]
                    &&& batch.depth == Some(old(self)@.database.depths()[f])
                },
            batch.alpha_mode == AlphaMode::Masked,
            final(self)@.database.sampler().frames() == old(self)@.database.sampler().frames(),
            old(self)@.database.sampler().strategy() is Weighted ==> final(self)@.database.sampler().counts() == old(
                self,
            )@.database.sampler().counts().update(
                drawn->0 as int,
                counted(old(self)@.database.sampler().counts()[drawn->0 as int]),
            ),
            final(self)@.database.unregistered() == old(self)@.database.unregistered(),
            final(self)@.database.train() == old(self)@.database.train(),
            final(self)@.database.eval() == old(self)@.database.eval(),
            final(self)@.database.images() == old(self)@.database.images(),
            final(self)@.database.depths() == old(self)@.database.depths(),
            final(self)@.database.total() == old(self)@.database.total(),
            final(self)@.database.same_settings(old(self)@.database),
    {
        self.training_iteration = self.training_iteration + 1;
        self.occupancy_grid = None;
        self.database.get_next_train_batch(drawn)
    }

    /// What is due at the end of a pass of the training loop. `stepped` tells
    /// whether the pass made a training step.
    pub fn duties(&self, stepped: bool) -> (duties: Duties)
        ensures
            duties == (Duties {
                refine: stepped && self@.iteration > 0 && multiple(
                    self@.iteration as int,
                    self@.config.stream.train_config.refine_every as int,
                ),
                reset_opacity: stepped && recurs(self@.iteration, self@.config.train().opacity_reset_every),
                decay_opacity: stepped && recurs(self@.iteration, self@.config.train().opacity_decay_every),
                status: multiple(self@.iteration as int, STATUS_EVERY as int),
                eval: multiple(self@.iteration as int, self@.config.stream.process_config.eval_every as int),
            }),
            duties.status == (self@.iteration % 100 == 0),
            self@.config.stream.process_config.eval_every > 0 ==> duties.eval == (self@.iteration
                % self@.config.stream.process_config.eval_every == 0),
            self@.config.stream.train_config.refine_every > 0 ==> duties.refine == (stepped && self@.iteration > 0
                && self@.iteration % self@.config.stream.train_config.refine_every == 0),
            duties.reset_opacity == (stepped && self@.config.stream.incremental_train_config.opacity_reset_every != 0
                && self@.iteration % self@.config.stream.incremental_train_config.opacity_reset_every == 0),
            duties.decay_opacity == (stepped && self@.config.stream.incremental_train_config.opacity_decay_every != 0
                && self@.iteration % self@.config.stream.incremental_train_config.opacity_decay_every == 0),
    {
        let iteration: u32 = self.training_iteration;
        let train = &self.config.stream.incremental_train_config;
        let (reset_every, decay_every): (u32, u32) = (train.opacity_reset_every, train.opacity_decay_every);
        let refine_every: u32 = self.config.stream.train_config.refine_every;
        Duties {
            refine: stepped && iteration > 0 && iteration.is_multiple_of(refine_every),
            reset_opacity: stepped && reset_every != 0 && iteration.is_multiple_of(reset_every),
            decay_opacity: stepped && decay_every != 0 && iteration.is_multiple_of(decay_every),
            status: iteration.is_multiple_of(STATUS_EVERY),
            eval: iteration.is_multiple_of(self.config.stream.process_config.eval_every),
        }
    }

    /// Takes over refined splats. Returns what the viewers are told.
    pub fn refine(&mut self, splats: SplatInfo, total_splats: u32) -> (message: ProcessMessage)
        requires
            old(self)@.splats.is_some(),
            old(self)@.has_trainer,
        ensures
            final(self)@ == (ContextState { splats: Some(splats), ..old(self)@ }),
            message == (ProcessMessage::RefineStep { cur_splat_count: total_splats, iter: old(self)@.iteration }),
    {
        self.splats = Some(splats);
        ProcessMessage::RefineStep { cur_splat_count: total_splats, iter: self.training_iteration }
    }

    /// The views on which the splats are evaluated, if there are splats.
    pub fn eval_step(&self) -> (views: Option<Vec<EvalView>>)
        ensures
            views.is_some() == self@.splats.is_some(),
            views.is_some() ==> exists|order: Seq<(FrameId, Camera)>| #[trigger]
                lists_entries(order, self@.database.eval()) && views->0@ == with_images(
                    order,
                    self@.database.images(),
                ),
            views.is_some() ==> {
                &&& forall|view: EvalView| #[trigger]
                    views->0@.contains(view) <==> {
                        &&& self@.database.eval().dom().contains(view.0)
                        &&& self@.database.images().dom().contains(view.0)
                        &&& view.1 == self@.database.eval()[view.0]
                        &&& view.2 == self@.database.images()[view.0]
                    }
                &&& forall|i: int, j: int|
                    0 <= i < j < views->0@.len() ==> (#[trigger] views->0@[i]).0 != (#[trigger] views->0@[j]).0
            },
    {
        if self.splats.is_some() {
            let views = self.database.eval_views();
            proof {
                let order = choose|order: Seq<(FrameId, Camera)>| #[trigger]
                    lists_entries(order, self.database.eval()) && views@ == with_images(order, self.database.images());
                assert(lists_entries(order, self@.database.eval()));
            }
            Some(views)
        } else {
            None
        }
    }

    /// What the viewers are told about an evaluation.
    pub fn eval_message(&self, avg_psnr: u32, avg_ssim: u32) -> (message: ProcessMessage)
        ensures
            message == (ProcessMessage::EvalResult { iter: self@.iteration, avg_psnr, avg_ssim }),
    {
        ProcessMessage::EvalResult { iter: self.training_iteration, avg_psnr, avg_ssim }
    }
}

/// Whether the function always gives what `blend` says.
pub open spec fn computes_blend<F: Fn(Option<[u32; 3]>, u32, [u32; 4]) -> [u32; 3]>(
    f: F,
    blend: spec_fn(Option<[u32; 3]>, u32, [u32; 4]) -> [u32; 3],
) -> bool {
    forall|axis: Option<[u32; 3]>, count: u32, rotation: [u32; 4], out: [u32; 3]|
        call_ensures(f, (axis, count, rotation), out) ==> out == blend(axis, count, rotation)
}

/// The up axis after the cameras of frames have been averaged in, one after
/// the other.
pub open spec fn blended(
    axis: Option<[u32; 3]>,
    count: u32,
    frames: Seq<RegisteredFrame>,
    blend: spec_fn(Option<[u32; 3]>, u32, [u32; 4]) -> [u32; 3],
) -> Option<[u32; 3]>
    decreases frames.len(),
{
    if frames.len() == 0 {
        axis
    } else {
        let rest = frames.drop_last();
        Some(
            blend(
                blended(axis, count, rest, blend),
                (count + rest.len()) as u32,
                frames.last().0.rotation,
            ),
        )
    }
}

/// New splats, as arrays, and how many splats there were before and are after.
pub struct AddedSplats {
    pub arrays: SplatArrays,
    pub raw_opacities: Vec<u32>,
    pub sh_degree: u32,
    pub render_mode: SplatRenderMode,
    pub before: usize,
    pub after: usize,
}

impl AddedSplats {
    /// Whether these are splats for the points, in their order, all with the
    /// same opacity, appended to `before` others.
    pub open spec fn appends(
        self,
        points: Seq<ProjectedPixel>,
        log_scales: Option<Seq<u32>>,
        raw_opacity: u32,
        state: ContextState,
    ) -> bool {
        &&& self.arrays.means@ == packed_means(points)
        &&& self.arrays.sh_coeffs@ == packed_colors(points)
        &&& self.arrays.log_scales.is_some() == log_scales.is_some()
        &&& log_scales.is_some() ==> self.arrays.log_scales->0@ == log_scales->0
        &&& self.raw_opacities@ == Seq::new(points.len(), |i: int| raw_opacity)
        &&& self.sh_degree == state.config.sh_degree()
        &&& self.render_mode == state.config.render_mode()
        &&& self.before == count_of(state.splats)
        &&& self.after == count_of(state.splats) + points.len()
    }
}

impl ContextState {
    /// With more splats.
    pub open spec fn with_more(self, n: nat) -> ContextState {
        ContextState {
            splats: Some(
                SplatInfo { num_splats: (count_of(self.splats) + n) as u32, sh_degree: self.config.sh_degree() },
            ),
            ..self
        }
    }

    /// Where splats are: as far as it is known, or as given.
    pub open spec fn grid_or(self, existing: Seq<Occupant>) -> GridState {
        match self.grid {
            Some(grid) => grid,
            None => grid_of(existing),
        }
    }
}

impl IncrementalTrainContext {
    /// Averages the up axes of cameras into the up axis.
    pub fn update_up_axis<F: Fn(Option<[u32; 3]>, u32, [u32; 4]) -> [u32; 3]>(
        &mut self,
        frames: &Vec<RegisteredFrame>,
        f: F,
    )
        requires
            old(self)@.up_axis_views + frames@.len() <= u32::MAX,
            forall|axis: Option<[u32; 3]>, count: u32, rotation: [u32; 4]| #[trigger]
                call_requires(f, (axis, count, rotation)),
        ensures
            final(self)@ == (ContextState {
                up_axis: final(self)@.up_axis,
                up_axis_views: (old(self)@.up_axis_views + frames@.len()) as u32,
                ..old(self)@
            }),
            frames@.len() == 0 ==> final(self)@.up_axis == old(self)@.up_axis,
            frames@.len() > 0 ==> final(self)@.up_axis.is_some(),
            forall|blend: spec_fn(Option<[u32; 3]>, u32, [u32; 4]) -> [u32; 3]| #[trigger]
                computes_blend(f, blend) ==> final(self)@.up_axis == blended(
                    old(self)@.up_axis,
                    old(self)@.up_axis_views,
                    frames@,
                    blend,
                ),
    {
        let ghost before = self@;
        let n: usize = frames.len();
        for i in 0..n
            invariant
                n == frames@.len(),
                before.up_axis_views + frames@.len() <= u32::MAX,
                forall|axis: Option<[u32; 3]>, count: u32, rotation: [u32; 4]| #[trigger]
                    call_requires(f, (axis, count, rotation)),
                self@ == (ContextState {
                    up_axis: self@.up_axis,
                    up_axis_views: (before.up_axis_views + i) as u32,
                    ..before
                }),
                i == 0 ==> self@.up_axis == before.up_axis,
                i > 0 ==> self@.up_axis.is_some(),
                forall|blend: spec_fn(Option<[u32; 3]>, u32, [u32; 4]) -> [u32; 3]| #[trigger]
                    computes_blend(f, blend) ==> self@.up_axis == blended(
                        before.up_axis,
                        before.up_axis_views,
                        frames@.take(i as int),
                        blend,
                    ),
        {
            proof {
                assert(frames@.take(i + 1).drop_last() =~= frames@.take(i as int));
            }
            let axis: [u32; 3] = f(self.up_axis, self.up_axis_factor_count, frames[i].0.rotation);
            self.up_axis = Some(axis);
            self.up_axis_factor_count = self.up_axis_factor_count + 1;
        }
        assert(frames@.take(n as int) =~= frames@);
    }

    /// Begins to add Gaussians for frames: the viewers get to see the last
    /// image, and as long as there are few views the up axis follows the
    /// cameras.
    pub fn extend_gaussians<F: Fn(Option<[u32; 3]>, u32, [u32; 4]) -> [u32; 3]>(
        &mut self,
        frames: &Vec<RegisteredFrame>,
        f: F,
    ) -> (messages: Vec<ProcessMessage>)
        requires
            old(self)@.up_axis_views + frames@.len() <= u32::MAX,
            forall|axis: Option<[u32; 3]>, count: u32, rotation: [u32; 4]| #[trigger]
                call_requires(f, (axis, count, rotation)),
        ensures
            messages@ == (if frames@.len() == 0 {
                Seq::empty()
            } else {
                seq![ProcessMessage::NewImage { image: frames@.last().1 }]
            }),
            ({
                let follows = old(self)@.database.total() < 50;
                &&& final(self)@ == (if follows {
                    ContextState {
                        up_axis: final(self)@.up_axis,
                        up_axis_views: (old(self)@.up_axis_views + frames@.len()) as u32,
                        ..old(self)@
                    }
                } else {
                    old(self)@
                })
                &&& follows ==> forall|blend: spec_fn(Option<[u32; 3]>, u32, [u32; 4]) -> [u32; 3]| #[trigger]
                    computes_blend(f, blend) ==> final(self)@.up_axis == blended(
                        old(self)@.up_axis,
                        old(self)@.up_axis_views,
                        frames@,
                        blend,
                    )
            }),
    {
        let n: usize = frames.len();
        if n == 0 {
            return Vec::new();
        }
        let messages = self.update_last_images(Some(&frames[n - 1].1));
        if self.database.total_view_count() < UP_AXIS_VIEWS {
            self.update_up_axis(frames, f);
        }
        messages
    }

    /// Records that the splats got a new optimiser, if there are any. Returns
    /// whether they do.
    pub fn reset_trainer(&mut self) -> (reset: bool)
        ensures
            reset == old(self)@.splats.is_some(),
            final(self)@ == (ContextState { has_trainer: old(self)@.has_trainer || reset, ..old(self)@ }),
    {
        if self.splats.is_some() {
            self.has_trainer = true;
            true
        } else {
            false
        }
    }

    /// What shows the last image to the viewers, if there is one.
    pub fn update_last_images(&self, last_image: Option<&Arc<RasterImage>>) -> (messages: Vec<ProcessMessage>)
        ensures
            messages@ == (match last_image {
                Some(image) => seq![ProcessMessage::NewImage { image: *image }],
                None => Seq::empty(),
            }),
    {
        let mut messages: Vec<ProcessMessage> = Vec::new();
        if let Some(image) = last_image {
            messages.push(ProcessMessage::NewImage { image: share(image) });
        }
        messages
    }

    /// Makes sure that it is known where splats are. `existing` are the splats
    /// as they are now.
    fn ensure_occupancy_grid_valid(&mut self, existing: &Vec<Occupant>)
        ensures
            final(self)@ == (ContextState { grid: Some(old(self)@.grid_or(existing@)), ..old(self)@ }),
    {
        if self.occupancy_grid.is_none() {
            self.occupancy_grid = Some(compute_occupancy_grid(existing));
        }
    }

    /// Appends splats.
    fn add_new_landmarks_by_means(&mut self, arrays: SplatArrays, raw_opacity: u32) -> (added: AddedSplats)
        requires
            count_of(old(self)@.splats) + arrays.means@.len() / 3 <= u32::MAX,
        ensures
            final(self)@ == old(self)@.with_more(arrays.means@.len() / 3),
            added.arrays == arrays,
            added.raw_opacities@ == Seq::new(arrays.means@.len() / 3, |i: int| raw_opacity),
            added.sh_degree == old(self)@.config.sh_degree(),
            added.render_mode == old(self)@.config.render_mode(),
            added.before == count_of(old(self)@.splats),
            added.after == count_of(old(self)@.splats) + arrays.means@.len() / 3,
    {
        let n: usize = arrays.means.len() / 3;
        let splats_before: u32 = match self.splats {
            Some(info) => info.num_splats,
            None => 0,
        };
        let raw_opacities = repeated(raw_opacity, n);
        let splats_after: u32 = splats_before + n as u32;
        let sh_degree: u32 = self.config.stream.model_config.sh_degree;
        self.splats = Some(SplatInfo { num_splats: splats_after, sh_degree });
        AddedSplats {
            arrays,
            raw_opacities,
            sh_degree,
            render_mode: render_mode_or_default(&self.config.stream.train_config),
            before: splats_before as usize,
            after: splats_after as usize,
        }
    }

    /// Adds a splat for each pixel with depth that lies in a cell without one and
    /// has its distance to all others. `existing` are the splats as they are
    /// now.
    pub fn add_new_landmarks_by_depth<F: Fn(usize) -> Projection, N: Fn([u32; 3], [u32; 3]) -> bool>(
        &mut self,
        raster: &RasterImage,
        depth: &Vec<u32>,
        existing: &Vec<Occupant>,
        raw_opacity: u32,
        f: F,
        near: N,
    ) -> (added: AddedSplats)
        requires
            raster.is_rgba(),
            raster.pixels() <= depth@.len(),
            count_of(old(self)@.splats) + raster.pixels() <= u32::MAX,
            forall|idx: usize| #[trigger] call_requires(f, (idx,)),
            forall|a: [u32; 3], b: [u32; 3]| #[trigger] call_requires(near, (a, b)),
        ensures
            final(self)@ == (ContextState {
                splats: final(self)@.splats,
                grid: final(self)@.grid,
                ..old(self)@
            }),
            final(self)@.splats.is_some(),
            final(self)@.splats->0.sh_degree == old(self)@.config.sh_degree(),
            final(self)@.grid.is_some(),
            added.before == count_of(old(self)@.splats),
            added.after == count_of(final(self)@.splats),
            added.before <= added.after <= added.before + raster.pixels(),
            forall|
                projection: spec_fn(usize) -> Projection,
                close: spec_fn([u32; 3], [u32; 3]) -> bool,
            |
                #![trigger computes_projection(f, projection), computes_near(near, close)]
                computes_projection(f, projection) && computes_near(near, close) ==> adds_by_depth(
                    old(self)@,
                    *raster,
                    depth@,
                    existing@,
                    raw_opacity,
                    projection,
                    close,
                    added,
                    final(self)@,
                ),
    {
        let ghost before = self@;
        self.ensure_occupancy_grid_valid(existing);
        let mut grid = self.occupancy_grid.take().unwrap();
        let total: usize = raster.bytes.len() / 4;
        let ghost pred = |i: usize| has_depth(depth@[i as int]);
        let pixels = pixels_with_depth(depth, total);
        proof {
            lemma_picked(total as nat, pred);
            assert forall|k: int| 0 <= k < pixels@.len() implies (#[trigger] pixels@[k]) < total by {
                assert(pixels@.contains(pixels@[k]));
            }
        }
        let mut scratch = unmarked(total);
        let ghost known = grid@;
        let kept = add_in_free_cells(&mut grid, &pixels, &mut scratch, &f, &near);
        proof {
            assert forall|
                projection: spec_fn(usize) -> Projection,
                close: spec_fn([u32; 3], [u32; 3]) -> bool,
            |
                #![trigger computes_projection(f, projection), computes_near(near, close)]
                computes_projection(f, projection) && computes_near(near, close) implies keeps_distance(
                known.means,
                kept@,
                close,
            ) by {
                lemma_points_keep_their_distance(known, projected(pixels@, projection), close);
            }
        }
        self.occupancy_grid = Some(grid);
        let arrays = pack_points(&kept, true);
        self.add_new_landmarks_by_means(arrays, raw_opacity)
    }

    /// Adds a splat for each pixel with depth in every n-th column of every
    /// n-th row, and marks those pixels.
    pub fn strided_depth_points<F: Fn(usize) -> Projection>(
        &mut self,
        raster: &RasterImage,
        depth: &Vec<u32>,
        added: &mut Vec<bool>,
        raw_opacity: u32,
        f: F,
    ) -> (splats: AddedSplats)
        requires
            raster.is_rgba(),
            raster.pixels() <= depth@.len(),
            old(added)@.len() == raster.pixels(),
            count_of(old(self)@.splats) + raster.pixels() <= u32::MAX,
            forall|idx: usize| #[trigger] call_requires(f, (idx,)),
        ensures
            ({
                let stride = vstd::math::max(old(self)@.config.densify.init_depth_stride as int, 1);
                let pixels = picked(
                    raster.pixels() as nat,
                    on_strided_grid(depth@, raster.width as int, stride),
                );
                &&& final(added)@ == marked(old(added)@, pixels)
                &&& final(self)@ == old(self)@.with_more(pixels.len())
                &&& forall|projection: spec_fn(usize) -> Projection| #[trigger]
                    computes_projection(f, projection) ==> {
                        let points = projected(pixels, projection);
                        splats.appends(points, Some(packed_log_scales(points)), raw_opacity, old(self)@)
                    }
            }),
    {
        let total: usize = added.len();
        let stride: usize = if self.config.densify.init_depth_stride > 1 {
            self.config.densify.init_depth_stride
        } else {
            1
        };
        let w: usize = raster.width as usize;
        let h: usize = raster.height as usize;
        let ghost pred = on_strided_grid(depth@, w as int, stride as int);
        let pixels = strided_depth_points(depth, w, h, stride);
        proof {
            assert(pixels@ == picked(total as nat, pred));
            lemma_picked(total as nat, pred);
            assert forall|k: int| 0 <= k < pixels@.len() implies (#[trigger] pixels@[k]) < total by {
                assert(pixels@.contains(pixels@[k]));
            }
        }
        let points = project_pixels(&pixels, &f);
        proof {
            assert(pixels_of(points@).len() == points@.len());
        }
        mark_added(added, &pixels);
        let arrays = pack_points(&points, true);
        self.add_new_landmarks_by_means(arrays, raw_opacity)
    }
}

impl IncrementalTrainContext {
    /// Whether a step of a burst on a new frame begins with densification.
    /// Steps are counted from one.
    pub fn densify_due(&self, step: u32) -> (due: bool)
        ensures
            due == multiple(step as int, self@.config.densify.every as int),
            self@.config.densify.every > 0 ==> due == (step % self@.config.densify.every == 0),
    {
        step.is_multiple_of(self.config.densify.every)
    }

    /// Weighs the pixels for densification: those without a Gaussian that are
    /// deep enough. Returns nothing if there is nothing to draw.
    pub fn plan_densify<F: Fn(usize) -> u32>(&self, added: &Vec<bool>, depth: &Vec<u32>, num_samples: usize, f: F) -> (plan:
        Option<DrawPlan>)
        requires
            added@.len() <= depth@.len(),
            forall|idx: usize| #[trigger] call_requires(f, (idx,)),
        ensures
            forall|weight: spec_fn(usize) -> u32| #[trigger]
                computes_pixel_weight(f, weight) ==> {
                    let pixels = picked(added@.len(), injectable(added@, depth@));
                    let weights = weights_at(pixels, added@.len(), weight);
                    let n = drawable(weights, num_samples as nat);
                    &&& plan.is_some() == (n > 0)
                    &&& plan.is_some() ==> plan->0.weights@ == weights && plan->0.n == n
                },
    {
        let total: usize = added.len();
        let ghost pred = injectable(added@, depth@);
        let pixels = injection_pixels(added, depth, total);
        proof {
            lemma_picked(total as nat, pred);
            assert forall|k: int| 0 <= k < pixels@.len() implies (#[trigger] pixels@[k]) < total by {
                assert(pixels@.contains(pixels@[k]));
            }
        }
        let weights = pixel_weights(&pixels, total, &f);
        let n: usize = sample_count(&weights, num_samples);
        if n == 0 {
            None
        } else {
            Some(DrawPlan { weights, n })
        }
    }

    /// Adds a splat for each pixel that was drawn, and marks those pixels. The
    /// splats get `const_log_scale`, or no scale if their distances to all
    /// other splats decide. They need a new optimiser.
    pub fn ssim_densify_once<F: Fn(usize) -> Projection>(
        &mut self,
        added: &mut Vec<bool>,
        sampled: &Vec<usize>,
        const_log_scale: u32,
        raw_opacity: u32,
        f: F,
    ) -> (splats: AddedSplats)
        requires
            forall|k: int| 0 <= k < sampled@.len() ==> (#[trigger] sampled@[k]) < old(added)@.len(),
            count_of(old(self)@.splats) + sampled@.len() <= u32::MAX,
            forall|idx: usize| #[trigger] call_requires(f, (idx,)),
        ensures
            final(added)@ == marked(old(added)@, sampled@),
            final(self)@ == old(self)@.with_more(sampled@.len()),
            forall|projection: spec_fn(usize) -> Projection| #[trigger]
                computes_projection(f, projection) ==> splats.appends(
                    projected(sampled@, projection),
                    match old(self)@.config.densify.scale_mode {
                        DensifyScaleMode::Constant => Some(Seq::new(3 * sampled@.len(), |k: int| const_log_scale)),
                        DensifyScaleMode::Knn => None,
                    },
                    raw_opacity,
                    old(self)@,
                ),
    {
        let points = project_pixels(sampled, &f);
        proof {
            assert(pixels_of(points@).len() == points@.len());
        }
        mark_added(added, sampled);
        let mut arrays = pack_points(&points, false);
        match self.config.densify.scale_mode {
            DensifyScaleMode::Constant => {
                let n: usize = arrays.means.len();
                arrays.log_scales = Some(repeated(const_log_scale, n));
            },
            DensifyScaleMode::Knn => {},
        }
        self.add_new_landmarks_by_means(arrays, raw_opacity)
    }

    /// How many splats there are.
    pub fn splat_count(&self) -> (count: usize)
        ensures
            count == count_of(self@.splats),
    {
        match self.splats {
            Some(info) => info.num_splats as usize,
            None => 0,
        }
    }

    /// How splats follow the motions of their frames. Returns nothing if none
    /// have to move.
    pub fn update_poses(
        &self,
        pose_updates: &Vec<(FrameId, [u32; 3], [u32; 4])>,
        ranges: &HashMap<u64, (usize, usize)>,
    ) -> (updates: Option<Vec<PoseUpdate>>)
        requires
            forall|k: int| 0 <= k < pose_updates@.len() ==> ranges@.dom().contains((#[trigger] pose_updates@[k]).0),
        ensures
            updates.is_some() == (pose_updates@.len() > 0 && self@.splats.is_some()),
            updates.is_some() ==> updates->0@ == pose_updates@.map_values(
                |update: (FrameId, [u32; 3], [u32; 4])|
                    PoseUpdate {
                        translation: update.1,
                        rotation: update.2,
                        start: ranges@[update.0].0,
                        end: ranges@[update.0].1,
                    },
            ),
    {
        let n: usize = pose_updates.len();
        if n == 0 || self.splats.is_none() {
            return None;
        }
        let ghost all = pose_updates@.map_values(
            |update: (FrameId, [u32; 3], [u32; 4])|
                PoseUpdate {
                    translation: update.1,
                    rotation: update.2,
                    start: ranges@[update.0].0,
                    end: ranges@[update.0].1,
                },
        );
        let mut updates: Vec<PoseUpdate> = Vec::new();
        for k in 0..n
            invariant
                n == pose_updates@.len(),
                forall|k: int| 0 <= k < n ==> ranges@.dom().contains((#[trigger] pose_updates@[k]).0),
                all == pose_updates@.map_values(
                    |update: (FrameId, [u32; 3], [u32; 4])|
                        PoseUpdate {
                            translation: update.1,
                            rotation: update.2,
                            start: ranges@[update.0].0,
                            end: ranges@[update.0].1,
                        },
                ),
                updates@ == all.take(k as int),
        {
            let (frame_id, translation, rotation): (FrameId, [u32; 3], [u32; 4]) = pose_updates[k];
            assert(ranges@.dom().contains(pose_updates@[k as int].0));
            let (start, end): (usize, usize) = *ranges.get(&frame_id).unwrap();
            updates.push(PoseUpdate { translation, rotation, start, end });
            assert(all.take(k + 1) =~= all.take(k as int).push(all[k as int]));
        }
        assert(all.take(n as int) =~= all);
        Some(updates)
    }

    /// What the viewers are told at the start.
    pub fn init_ui(&self) -> (messages: Vec<ProcessMessage>)
        ensures
            messages@ == opening(Some(self@.config.stream)),
    {
        opening_messages(Some(share(&self.config.stream)))
    }

    /// What the viewers are told about the splats, if there are any. They are
    /// told once that loading is done.
    pub fn update_splat_in_ui(&mut self) -> (messages: Vec<ProcessMessage>)
        ensures
            messages@ == (match old(self)@.splats {
                Some(info) => splats_news(info, old(self)@.up_axis, !old(self)@.told),
                None => Seq::empty(),
            }),
            final(self)@ == (ContextState {
                told: old(self)@.told || old(self)@.splats.is_some(),
                ..old(self)@
            }),
    {
        match self.splats {
            Some(info) => {
                let messages = splats_news_messages(info, self.up_axis, !self.splat_sender_initialized);
                self.splat_sender_initialized = true;
                messages
            },
            None => Vec::new(),
        }
    }

    /// What lists the training views for the viewers, in no particular order.
    pub fn update_ui_dataset(&self) -> (message: ProcessMessage)
        ensures
            exists|order: Seq<(FrameId, Camera)>, views: Seq<Arc<SceneView>>|
                {
                    &&& #[trigger] lists_entries(order, self@.database.train())
                    &&& #[trigger] lists_views(message, views)
                    &&& shows_poses(views, order)
                },
            message matches ProcessMessage::Dataset { train_views, eval_views } && {
                &&& eval_views@.len() == 0
                &&& self@.database.train().dom().finite() ==> train_views@.len() == self@.database.train().dom().len()
                &&& forall|f: u64| #[trigger]
                    self@.database.train().dom().contains(f) ==> exists|i: int|
                        0 <= i < train_views@.len() && (#[trigger] train_views@[i]).image_name@ == image_name(f as int)
                            && train_views@[i].camera == self@.database.train()[f] && train_views@[i].files.is_none()
            },
    {
        let poses = self.database.train_poses();
        let n: usize = poses.len();
        let mut views: Vec<Arc<SceneView>> = Vec::new();
        for i in 0..n
            invariant
                n == poses@.len(),
                shows_poses(views@, poses@.take(i as int)),
        {
            let mut name = to_decimal(poses[i].0 as u128);
            name.append(".png");
            views.push(Arc::new(SceneView { image_name: name, files: None, camera: poses[i].1 }));
            assert(shows_poses(views@, poses@.take(i + 1)));
        }
        assert(poses@.take(n as int) =~= poses@);
        assert(lists_entries(poses@, self@.database.train()));
        proof {
            lemma_list_is_the_map(poses@, self@.database.train());
            assert forall|f: u64| #[trigger] self@.database.train().dom().contains(f) implies exists|i: int|
                0 <= i < views@.len() && (#[trigger] views@[i]).image_name@ == image_name(f as int) && views@[i].camera
                    == self@.database.train()[f] && views@[i].files.is_none() by {
                let i = choose|i: int| 0 <= i < poses@.len() && (#[trigger] poses@[i]).0 == f;
                assert(views@[i].camera == poses@[i].1);
            }
        }
        dataset_message(views)
    }

    /// What the viewers are told about the progress of training.
    pub fn update_train_status_ui(&self, total_elapsed: u128) -> (messages: Vec<ProcessMessage>)
        ensures
            messages@ == status(self@.splats, self@.iteration, total_elapsed),
    {
        status_messages(self.splats, self.training_iteration, total_elapsed)
    }
}

/// Whether the list shows each pose by the name of its image and its camera,
/// in the same order.
pub open spec fn shows_poses(list: Seq<Arc<SceneView>>, poses: Seq<(FrameId, Camera)>) -> bool {
    &&& list.len() == poses.len()
    &&& forall|i: int|
        0 <= i < poses.len() ==> {
            &&& (#[trigger] list[i]).image_name@ == image_name(poses[i].0 as int)
            &&& list[i].files.is_none()
            &&& list[i].camera == poses[i].1
        }
}

/// Whether a splat was added for each pixel with depth whose cell was free and
/// to which no splat was too near when it was its turn, and it is known where
/// the new splats are.
pub open spec fn adds_by_depth(
    before: ContextState,
    raster: RasterImage,
    depth: Seq<u32>,
    existing: Seq<Occupant>,
    raw_opacity: u32,
    projection: spec_fn(usize) -> Projection,
    close: spec_fn([u32; 3], [u32; 3]) -> bool,
    added: AddedSplats,
    after: ContextState,
) -> bool {
    let pixels = picked(raster.pixels() as nat, |i: usize| has_depth(depth[i as int]));
    let grid = before.grid_or(existing);
    let kept = placed(grid, projected(pixels, projection), close);
    &&& keeps_distance(grid.means, kept, close)
    &&& added.appends(kept, Some(packed_log_scales(kept)), raw_opacity, before)
    &&& after == (ContextState { grid: Some(with_points(grid, kept)), ..before.with_more(kept.len()) })
}

/// Taking the same frame in twice in a row adds its splats once: the second
/// time nothing is added and nothing changes, as long as it is not forgotten in
/// between where splats are.
pub proof fn lemma_same_frame_adds_nothing(
    before: ContextState,
    raster: RasterImage,
    depth: Seq<u32>,
    existing: Seq<Occupant>,
    later_existing: Seq<Occupant>,
    raw_opacity: u32,
    projection: spec_fn(usize) -> Projection,
    close: spec_fn([u32; 3], [u32; 3]) -> bool,
    first: AddedSplats,
    between: ContextState,
    second: AddedSplats,
    after: ContextState,
)
    requires
        count_of(before.splats) + raster.pixels() <= u32::MAX,
        raster.is_rgba(),
        adds_by_depth(before, raster, depth, existing, raw_opacity, projection, close, first, between),
        adds_by_depth(between, raster, depth, later_existing, raw_opacity, projection, close, second, after),
    ensures
        first.before == count_of(before.splats),
        first.after == count_of(between.splats),
        second.before == first.after,
        second.after == first.after,
        second.arrays.means@.len() == 0,
        after == between,
{
    let pred = |i: usize| has_depth(depth[i as int]);
    let pixels = picked(raster.pixels() as nat, pred);
    let points = projected(pixels, projection);
    let grid = before.grid_or(existing);
    lemma_picked(raster.pixels() as nat, pred);
    lemma_one_point_per_cell(grid, points, close);
    lemma_adding_again_adds_nothing(grid, points, close);
    let known = between.grid_or(later_existing);
    let again = placed(known, points, close);
    assert(again =~= Seq::empty());
    assert(with_points(known, again) =~= known);
}

/// The up axis is averaged over cameras one after the other: each is blended
/// into what came before, with the number of cameras that are in it already.
/// Without cameras it stays.
pub proof fn lemma_cameras_are_blended_in_turn(
    axis: Option<[u32; 3]>,
    count: u32,
    frames: Seq<RegisteredFrame>,
    next: RegisteredFrame,
    blend: spec_fn(Option<[u32; 3]>, u32, [u32; 4]) -> [u32; 3],
)
    ensures
        blended(axis, count, Seq::empty(), blend) == axis,
        blended(axis, count, frames.push(next), blend) == Some(
            blend(blended(axis, count, frames, blend), (count + frames.len()) as u32, next.0.rotation),
        ),
{
    assert(frames.push(next).drop_last() =~= frames);
}

/// Splats that are appended for points: one for each, in their order, with the
/// mean, colour and opacity that it is to have.
pub proof fn lemma_appended_splats(
    splats: AddedSplats,
    points: Seq<ProjectedPixel>,
    log_scales: Option<Seq<u32>>,
    raw_opacity: u32,
    state: ContextState,
    i: int,
    axis: int,
)
    requires
        splats.appends(points, log_scales, raw_opacity, state),
        0 <= i < points.len(),
        0 <= axis < 3,
    ensures
        splats.arrays.means@.len() == 3 * points.len(),
        splats.arrays.means@[3 * i + axis] == points[i].mean[axis],
        splats.arrays.sh_coeffs@.len() == 3 * points.len(),
        splats.arrays.sh_coeffs@[3 * i + axis] == points[i].color,
        splats.raw_opacities@.len() == points.len(),
        splats.raw_opacities@[i] == raw_opacity,
        splats.arrays.log_scales.is_some() == log_scales.is_some(),
        log_scales.is_some() ==> splats.arrays.log_scales->0@ == log_scales->0,
        splats.sh_degree == state.config.stream.model_config.sh_degree,
        splats.render_mode == (match state.config.stream.train_config.render_mode {
            Some(mode) => mode,
            None => SplatRenderMode::Default,
        }),
        state.splats.is_some() ==> splats.before == state.splats->0.num_splats,
        state.splats.is_none() ==> splats.before == 0,
        splats.after == splats.before + points.len(),
{
    lemma_packing_can_be_read_back(points, i, axis);
}

/// More splats are counted, and nothing else of a context changes.
pub proof fn lemma_splats_are_counted(state: ContextState, n: nat)
    requires
        count_of(state.splats) + n <= u32::MAX,
    ensures
        state.with_more(n).splats.is_some(),
        state.with_more(n).splats->0.num_splats == n + (match state.splats {
            Some(info) => info.num_splats as nat,
            None => 0,
        }),
        state.with_more(n).splats->0.sh_degree == state.config.stream.model_config.sh_degree,
        state.with_more(n) == (ContextState { splats: state.with_more(n).splats, ..state }),
{
}

/// Taking in a frame by depth adds a splat for the first pixel with depth whose
/// cell is free and to which no splat is near; with nothing there yet, that is
/// the first pixel with depth.
pub proof fn lemma_depth_adds_splats(
    before: ContextState,
    raster: RasterImage,
    depth: Seq<u32>,
    existing: Seq<Occupant>,
    raw_opacity: u32,
    projection: spec_fn(usize) -> Projection,
    close: spec_fn([u32; 3], [u32; 3]) -> bool,
    added: AddedSplats,
    after: ContextState,
    idx: usize,
)
    requires
        adds_by_depth(before, raster, depth, existing, raw_opacity, projection, close, added, after),
        raster.pixels() <= usize::MAX,
        raster.pixels() <= depth.len(),
        count_of(before.splats) + raster.pixels() <= u32::MAX,
        idx < raster.pixels(),
        has_depth(depth[idx as int]),
        forall|i: int| 0 <= i < idx ==> !has_depth(#[trigger] depth[i]),
        before.grid.is_none(),
        forall|k: int| 0 <= k < existing.len() ==> (#[trigger] existing[k]).cell != projection(idx).cell,
        forall|k: int| 0 <= k < existing.len() ==> !close(projection(idx).mean, (#[trigger] existing[k]).mean),
    ensures
        added.after > added.before,
        added.arrays.means@[0] == projection(idx).mean[0],
        added.arrays.means@[1] == projection(idx).mean[1],
        added.arrays.means@[2] == projection(idx).mean[2],
        added.raw_opacities@[0] == raw_opacity,
        after.splats.is_some(),
        after.splats->0.num_splats == added.after,
        after.grid.is_some() && after.grid->0.cells.contains(projection(idx).cell),
        after.database == before.database && after.iteration == before.iteration && after.up_axis == before.up_axis,
{
    let pred = |i: usize| has_depth(depth[i as int]);
    let n = raster.pixels() as nat;
    let pixels = picked(n, pred);
    lemma_picked(n, pred);
    assert(pred(idx));
    assert(pixels.contains(idx));
    assert(pixels[0] == idx) by {
        let k = pixels.index_of(idx);
        if k > 0 {
            assert(pixels.contains(pixels[0]));
            assert(pred(pixels[0]));
            assert(pixels[0] < pixels[k]);
            assert(!has_depth(depth[pixels[0] as int]));
        }
    }
    let points = projected(pixels, projection);
    let grid = grid_of(existing);
    lemma_grid_holds_every_gaussian(existing);
    let kept = placed(grid, points, close);
    lemma_first_free_point(grid, points, close);
    assert(kept[0] == points[0]) by {
        assert(!grid.cells.contains(points[0].cell));
        assert forall|k: int| 0 <= k < grid.means.len() implies !close(points[0].mean, #[trigger] grid.means[k]) by {
            assert(grid.means[k] == existing[k].mean);
        }
    }
    lemma_packing_can_be_read_back(kept, 0, 0);
    lemma_packing_can_be_read_back(kept, 0, 1);
    lemma_packing_can_be_read_back(kept, 0, 2);
    lemma_points_are_recorded(grid, kept);
    lemma_one_point_per_cell(grid, points, close);
    assert(kept[0].cell == projection(idx).cell);
}

/// A function that always gives what `blend` says, and no other, is one that
/// computes it.
pub proof fn lemma_computes_blend<F: Fn(Option<[u32; 3]>, u32, [u32; 4]) -> [u32; 3]>(
    f: F,
    blend: spec_fn(Option<[u32; 3]>, u32, [u32; 4]) -> [u32; 3],
)
    ensures
        computes_blend(f, blend) <==> forall|axis: Option<[u32; 3]>, count: u32, rotation: [u32; 4], out: [u32; 3]| #[trigger]
            call_ensures(f, (axis, count, rotation), out) ==> out == blend(axis, count, rotation),
{
}

/// Where splats are is looked up once and then kept: what is known is used, and
/// what is given only counts as long as nothing is known.
pub proof fn lemma_known_grid_is_used(state: ContextState, existing: Seq<Occupant>)
    ensures
        state.grid.is_some() ==> Some(state.grid_or(existing)) == state.grid,
        state.grid.is_none() ==> state.grid_or(existing) == grid_of(existing),
{
}

} // verus!
