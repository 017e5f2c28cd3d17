//! The trainer: which views there are, which splats belong to them, and what
//! is done next.
use crate::camera::Camera;
use crate::chance::{fast_from, filled_bytes, make_fast, repeated_byte, run_rng, seeded_generator, take_seed};
use crate::config::{DensifyScaleMode, GaussianAddingMode, IncrementalProcessConfig, SplatRenderMode, TrainConfig};
use crate::database::AlphaMode;
use crate::densify::{
    absorbed, lemma_candidates_keep_their_weights, lemma_equal_draws_take_equal_pixels, positive_candidates,
    positive_weights, DensifySampler,
};
use crate::export::{is_order, lemma_order_is_complete, lemma_order_is_stable, stable_order, MetaInfo};
use crate::ieee::{at_most32, is_zero64, less32, less64, lt64, zero64};
use crate::landmarks::{
    add_in_free_cells, compute_occupancy_grid, computes_near, computes_projection, grid_of, keeps_distance,
    lemma_one_point_per_cell, lemma_packing_can_be_read_back, lemma_points_keep_their_distance, mark_added, marked, pack_points, packed_colors, packed_log_scales, packed_means,
    pixels_of, placed, project_pixels, projected, repeated, unmarked, GridState, Occupant, ProjectedPixel, Projection,
    SplatArrays,
};
use crate::pixels::{
    densifiable, densify_candidates, has_depth, lemma_grid_is_regular, lemma_picked, lemma_picked_agree,
    lemma_pixels_qualify, on_strided_grid, picked, pixels_with_depth, step_strided_grid,
};
use crate::raster::{share, RasterImage};
use crate::transforms::{
    covered, in_rows, lemma_moving_keeps_scales, lemma_updates_move_in_turn, moved, PoseUpdate, SplatPose, ROW,
};
use crate::ui::{
    dataset_message, image_file_name, image_name, lists_views, opening, opening_messages, splats_news,
    splats_news_messages, status, status_messages, ProcessMessage, SceneView, SplatInfo,
};
use crate::view_sampling::{counted, create_view_sampler, named_strategy, AnyViewSampler, ViewSampler};
use rand::rngs::{SmallRng, StdRng};
use std::collections::HashMap;
use std::sync::Arc;
use vstd::prelude::*;

verus! {

broadcast use vstd::std_specs::hash::group_hash_axioms;

/// Identifies a frame: its time of exposure in nanoseconds.
pub type FrameId = i64;

/// A frame with everything that is known about it.
pub struct ViewData {
    pub frame_id: FrameId,
    pub camera: Camera,
    pub image: Arc<RasterImage>,
    /// Depth of each pixel.
    pub depth: Option<Arc<Vec<u32>>>,
    /// Held back for evaluation.
    pub is_eval: bool,
    /// Gets Gaussians of its own.
    pub is_host_frame: bool,
}

impl ViewData {
    /// Whether the view can get Gaussians: its image has four bytes per pixel,
    /// and there is a depth for each pixel.
    pub open spec fn can_host(self) -> bool {
        &&& self.image.is_rgba()
        &&& self.depth.is_some()
        &&& self.image.pixels() <= self.depth->0@.len()
    }
}

/// A host view that is getting its Gaussians.
pub struct HostView {
    /// Where the view stands among the training views.
    pub view_index: usize,
    /// How many splats there were before.
    pub splats_before: usize,
    /// Which pixels have a Gaussian.
    pub added: Vec<bool>,
}

impl HostView {
    /// Whether this belongs to a host view of the trainer.
    pub open spec fn wf(self, state: TrainerState) -> bool {
        &&& self.view_index < state.train_views.len()
        &&& state.train_views[self.view_index as int].can_host()
        &&& self.added@.len() == state.train_views[self.view_index as int].image.pixels()
        &&& self.splats_before <= splat_count(state.splats)
        &&& forall|f: i64| #[trigger]
            state.corresponding_splats.dom().contains(f) ==> state.corresponding_splats[f].1 <= self.splats_before
    }
}

/// New splats: the arrays that describe them, and how they are made.
pub struct NewSplats {
    pub means: Vec<u32>,
    pub sh_coeffs: Vec<u32>,
    /// Without scales, the distances to the neighbours decide.
    pub log_scales: Option<Vec<u32>>,
    pub raw_opacities: Vec<u32>,
    pub sh_degree: u32,
    pub render_mode: SplatRenderMode,
}

impl NewSplats {
    /// Whether these are splats for the points, in their order, all with the
    /// same opacity.
    pub open spec fn describes(
        self,
        points: Seq<ProjectedPixel>,
        log_scales: Option<Seq<u32>>,
        raw_opacity: u32,
        config: IncrementalProcessConfig,
    ) -> bool {
        &&& self.means@ == packed_means(points)
        &&& self.sh_coeffs@ == packed_colors(points)
        &&& self.log_scales.is_some() == log_scales.is_some()
        &&& log_scales.is_some() ==> self.log_scales->0@ == log_scales->0
        &&& self.raw_opacities@ == Seq::new(points.len(), |i: int| raw_opacity)
        &&& self.sh_degree == config.sh_degree
        &&& self.render_mode == config.render_mode
    }
}

/// The pixels of a host view that have depth.
pub open spec fn depth_pixels(state: TrainerState, host: HostView) -> Seq<usize> {
    picked(host.added@.len(), |i: usize| has_depth(state.depth_of(host.view_index)[i as int]))
}

/// The pixels of a host view with depth in every n-th column of every n-th
/// row.
pub open spec fn grid_pixels(state: TrainerState, host: HostView) -> Seq<usize> {
    picked(
        host.added@.len(),
        on_strided_grid(
            state.depth_of(host.view_index),
            state.train_views[host.view_index as int].image.width as int,
            state.config.gaussians_init_depth_stride as int,
        ),
    )
}

/// Whether splats were added, if anything, and nothing else happened: views,
/// settings and the splats of other frames are as they were.
pub open spec fn grows(before: TrainerState, after: TrainerState) -> bool {
    &&& after == (TrainerState {
        splats: after.splats,
        has_trainer: after.has_trainer,
        rng: after.rng,
        ..before
    })
    &&& splat_count(before.splats) <= splat_count(after.splats)
    &&& before.splats.is_some() ==> after.splats.is_some()
}

/// Whether a splat was added for each pixel with depth whose cell was free and
/// to which no splat was too near when it was its turn, and nothing happened if there is none.
pub open spec fn adds_in_free_cells(
    before: TrainerState,
    host: HostView,
    grid: GridState,
    raw_opacity: u32,
    projection: spec_fn(usize) -> Projection,
    close: spec_fn([u32; 3], [u32; 3]) -> bool,
    new_splats: Option<NewSplats>,
    host_after: HostView,
    after: TrainerState,
) -> bool {
    let kept = placed(grid, projected(depth_pixels(before, host), projection), close);
    &&& keeps_distance(grid.means, kept, close)
    &&& host_after.added@ == marked(host.added@, pixels_of(kept))
    &&& new_splats.is_some() == (kept.len() > 0)
    &&& new_splats.is_some() ==> new_splats->0.describes(
        kept,
        Some(packed_log_scales(kept)),
        raw_opacity,
        before.config,
    )
    &&& after == (if kept.len() > 0 {
        before.with_more_splats(kept.len())
    } else {
        before
    })
}

/// Whether a splat was added for each pixel of the grid.
pub open spec fn adds_on_grid(before: TrainerState, host: HostView, host_after: HostView, after: TrainerState) -> bool {
    let pixels = grid_pixels(before, host);
    &&& host_after.added@ == marked(host.added@, pixels)
    &&& after == before.with_more_splats(pixels.len())
}

/// Whether these are the splats of the pixels of the grid. Their scales come
/// from their depth, unless the neighbours decide.
pub open spec fn describes_grid(
    before: TrainerState,
    host: HostView,
    raw_opacity: u32,
    projection: spec_fn(usize) -> Projection,
    new_splats: NewSplats,
) -> bool {
    let points = projected(grid_pixels(before, host), projection);
    new_splats.describes(
        points,
        if before.config.init_scales_with_knn {
            None
        } else {
            Some(packed_log_scales(points))
        },
        raw_opacity,
        before.config,
    )
}

/// What one training step works on.
pub struct TrainBatch {
    pub image: Arc<RasterImage>,
    pub alpha_mode: AlphaMode,
    pub camera: Camera,
    pub depth: Option<Arc<Vec<u32>>>,
    pub view_index: usize,
}

/// What a trainer knows, as mathematical values.
#[verifier::ext_equal]
pub struct TrainerState {
    pub config: IncrementalProcessConfig,
    /// Where a training frame stands among the training views.
    pub train_index: Map<i64, usize>,
    /// Where an evaluation frame stands among the evaluation views.
    pub eval_index: Map<i64, usize>,
    pub train_views: Seq<ViewData>,
    pub eval_views: Seq<ViewData>,
    pub sampler: AnyViewSampler,
    pub rng: StdRng,
    pub splats: Option<SplatInfo>,
    /// Whether an optimiser for all views exists.
    pub has_trainer: bool,
    /// Whether a message has been received.
    pub started: bool,
    pub host_view_count: nat,
    /// One more than the number of exports.
    pub export_count: nat,
    /// The splats that were made for a host frame, as a range of rows.
    pub corresponding_splats: Map<i64, (usize, usize)>,
    pub up_axis: Option<[u32; 3]>,
    pub newest_frame: Option<i64>,
    /// With viewers: whether they have been told that loading is done.
    pub viewers: Option<bool>,
}

/// Whether the index has every frame of the views, and points each to a view
/// of that frame.
pub open spec fn indexes(index: Map<i64, usize>, views: Seq<ViewData>) -> bool {
    &&& forall|f: i64| #[trigger]
        index.dom().contains(f) ==> index[f] < views.len() && views[index[f] as int].frame_id == f
    &&& forall|i: int| 0 <= i < views.len() ==> index.dom().contains((#[trigger] views[i]).frame_id)
}

/// Whether no splat belongs to two frames.
pub open spec fn apart(ranges: Map<i64, (usize, usize)>) -> bool {
    forall|f: i64, g: i64| #[trigger]
        ranges.dom().contains(f) && #[trigger] ranges.dom().contains(g) && f != g ==> ranges[f].1 <= ranges[g].0
            || ranges[g].1 <= ranges[f].0
}

/// How many splats there are.
pub open spec fn splat_count(splats: Option<SplatInfo>) -> nat {
    match splats {
        Some(info) => info.num_splats as nat,
        None => 0,
    }
}

impl TrainerState {
    /// With more splats. An optimiser for the old ones is of no use any more.
    pub open spec fn with_more_splats(self, n: nat) -> TrainerState {
        TrainerState {
            splats: Some(
                SplatInfo {
                    num_splats: (splat_count(self.splats) + n) as u32,
                    sh_degree: self.config.sh_degree,
                },
            ),
            has_trainer: false,
            ..self
        }
    }

    /// With the splats that were made for a host view known as its own.
    pub open spec fn with_owned(self, host: HostView) -> TrainerState {
        TrainerState {
            corresponding_splats: self.corresponding_splats.insert(
                self.train_views[host.view_index as int].frame_id,
                (host.splats_before, splat_count(self.splats) as usize),
            ),
            has_trainer: false,
            ..self
        }
    }

    /// The depths of a training view.
    pub open spec fn depth_of(self, view_index: usize) -> Seq<u32> {
        self.train_views[view_index as int].depth->0@
    }

    /// The indices fit the views, the sampler knows every training view by its
    /// place, and the splats of host frames exist.
    pub open spec fn wf(self) -> bool {
        &&& indexes(self.train_index, self.train_views)
        &&& indexes(self.eval_index, self.eval_views)
        &&& self.sampler.frames().len() == self.train_views.len()
        &&& forall|i: int| 0 <= i < self.train_views.len() ==> #[trigger] self.sampler.frames()[i] == i
        &&& forall|f: i64| #[trigger]
            self.corresponding_splats.dom().contains(f) ==> {
                &&& self.corresponding_splats[f].0 <= self.corresponding_splats[f].1
                &&& self.corresponding_splats[f].1 <= splat_count(self.splats)
            }
        &&& apart(self.corresponding_splats)
        &&& self.host_view_count <= self.train_views.len()
    }
}

/// What viewers have been told.
#[derive(Clone, Copy, Debug, PartialEq, Eq)]
pub struct UpdateUiContext {
    /// Whether they know that loading is done.
    pub splat_sender_initialized: bool,
}

impl UpdateUiContext {
    /// Viewers that have been told nothing.
    pub fn new() -> (ctx: Self)
        ensures
            !ctx.splat_sender_initialized,
    {
        UpdateUiContext { splat_sender_initialized: false }
    }
}

/// Trains splats on a growing set of views.
pub struct IncrementalTrainer {
    config: IncrementalProcessConfig,
    train_frame_id_to_idx: HashMap<FrameId, usize>,
    eval_frame_id_to_idx: HashMap<FrameId, usize>,
    train_views: Vec<ViewData>,
    eval_views: Vec<ViewData>,
    view_sampler: AnyViewSampler,
    rng: StdRng,
    splats: Option<SplatInfo>,
    has_trainer: bool,
    training_started: bool,
    host_view_count: usize,
    export_count: u64,
    corresponding_splats: HashMap<FrameId, (usize, usize)>,
    up_axis: Option<[u32; 3]>,
    newest_frame_id: Option<FrameId>,
    ui_ctx: Option<UpdateUiContext>,
}

impl View for IncrementalTrainer {
    type V = TrainerState;

    closed spec fn view(&self) -> TrainerState {
        TrainerState {
            config: self.config,
            train_index: self.train_frame_id_to_idx@,
            eval_index: self.eval_frame_id_to_idx@,
            train_views: self.train_views@,
            eval_views: self.eval_views@,
            sampler: self.view_sampler,
            rng: self.rng,
            splats: self.splats,
            has_trainer: self.has_trainer,
            started: self.training_started,
            host_view_count: self.host_view_count as nat,
            export_count: self.export_count as nat,
            corresponding_splats: self.corresponding_splats@,
            up_axis: self.up_axis,
            newest_frame: self.newest_frame_id,
            viewers: match self.ui_ctx {
                Some(ctx) => Some(ctx.splat_sender_initialized),
                None => None,
            },
        }
    }
}

impl IncrementalTrainer {
    /// A trainer without views and splats.
    pub fn new(config: IncrementalProcessConfig, ui_ctx: Option<UpdateUiContext>) -> (trainer: Self)
        requires
            named_strategy(config.train_config.view_sampling_strategy@).is_some(),
        ensures
            trainer@.wf(),
            trainer@.config == config,
            trainer@.train_index == Map::<i64, usize>::empty(),
            trainer@.eval_index == Map::<i64, usize>::empty(),
            trainer@.train_views == Seq::<ViewData>::empty(),
            trainer@.eval_views == Seq::<ViewData>::empty(),
            trainer@.sampler.strategy() == named_strategy(config.train_config.view_sampling_strategy@)->0,
            trainer@.sampler.frames() == Seq::<u64>::empty(),
            trainer@.rng == seeded_generator(repeated_byte(config.seed)),
            trainer@.splats == None::<SplatInfo>,
            !trainer@.has_trainer,
            !trainer@.started,
            trainer@.host_view_count == 0,
            trainer@.export_count == 1,
            trainer@.corresponding_splats == Map::<i64, (usize, usize)>::empty(),
            trainer@.up_axis == None::<[u32; 3]>,
            trainer@.newest_frame == None::<i64>,
            trainer@.viewers == (match ui_ctx {
                Some(ctx) => Some(ctx.splat_sender_initialized),
                None => None,
            }),
    {
        let view_sampler = create_view_sampler(config.train_config.view_sampling_strategy.as_str());
        let rng = run_rng(config.seed);
        IncrementalTrainer {
            config,
            train_frame_id_to_idx: HashMap::new(),
            eval_frame_id_to_idx: HashMap::new(),
            train_views: Vec::new(),
            eval_views: Vec::new(),
            view_sampler,
            rng,
            splats: None,
            has_trainer: false,
            training_started: false,
            host_view_count: 0,
            export_count: 1,
            corresponding_splats: HashMap::new(),
            up_axis: None,
            newest_frame_id: None,
            ui_ctx,
        }
    }

    /// Whether the next message has to be waited for: without splats, or
    /// without time for training, there is nothing else to do.
    pub fn must_wait(&self) -> (wait: bool)
        ensures
            wait == (self@.splats.is_none() || is_zero64(self@.config.train_config.all_view_train_secs)),
    {
        self.splats.is_none() || zero64(self.config.train_config.all_view_train_secs)
    }

    /// Records that receiving a message was tried. Training time starts with
    /// the first. Returns whether this is the first.
    pub fn message_received(&mut self) -> (first: bool)
        ensures
            final(self)@ == (TrainerState { started: true, ..old(self)@ }),
            first == !old(self)@.started,
    {
        let first: bool = !self.training_started;
        self.training_started = true;
        first
    }

    /// Takes the up axis of the first camera.
    pub fn update_up_axis(&mut self, y_axis: [u32; 3])
        ensures
            final(self)@ == (TrainerState {
                up_axis: if old(self)@.up_axis.is_none() {
                    Some(y_axis)
                } else {
                    old(self)@.up_axis
                },
                ..old(self)@
            }),
    {
        if self.up_axis.is_none() {
            self.up_axis = Some(y_axis);
        }
    }
}

impl IncrementalTrainer {
    /// Adds a view. A view for evaluation is put aside. Any other is trained on
    /// from now on; if it is a host frame, it is about to get Gaussians.
    pub fn add_view(&mut self, view: ViewData) -> (host: Option<HostView>)
        requires
            old(self)@.wf(),
            old(self)@.train_views.len() < usize::MAX,
            !view.is_eval && view.is_host_frame ==> view.can_host(),
        ensures
            final(self)@.wf(),
            ({
                let f = view.frame_id;
                if view.is_eval {
                    final(self)@ == (TrainerState {
                        eval_index: old(self)@.eval_index.insert(f, old(self)@.eval_views.len() as usize),
                        eval_views: old(self)@.eval_views.push(view),
                        ..old(self)@
                    })
                } else {
                    &&& final(self)@ == (TrainerState {
                        train_index: old(self)@.train_index.insert(f, old(self)@.train_views.len() as usize),
                        train_views: old(self)@.train_views.push(view),
                        sampler: final(self)@.sampler,
                        host_view_count: old(self)@.host_view_count + if view.is_host_frame {
                            1nat
                        } else {
                            0
                        },
                        newest_frame: Some(f),
                        ..old(self)@
                    })
                    &&& final(self)@.sampler.frames() == old(self)@.sampler.frames().push(
                        old(self)@.train_views.len() as u64,
                    )
                    &&& final(self)@.sampler.strategy() == old(self)@.sampler.strategy()
                    &&& old(self)@.sampler.strategy() is Weighted ==> final(self)@.sampler.counts() == old(
                        self,
                    )@.sampler.counts().push(0)
                }
            }),
            host.is_some() == (!view.is_eval && view.is_host_frame),
            host.is_some() ==> {
                &&& host->0.wf(final(self)@)
                &&& host->0.view_index == old(self)@.train_views.len()
                &&& host->0.splats_before == splat_count(old(self)@.splats)
                &&& host->0.added@ == Seq::new(view.image.pixels() as nat, |i: int| false)
            },
    {
        let ghost before = self@;
        let frame_id: FrameId = view.frame_id;
        if view.is_eval {
            self.eval_frame_id_to_idx.insert(frame_id, self.eval_views.len());
            self.eval_views.push(view);
            assert(indexes(self@.eval_index, self@.eval_views));
            None
        } else {
            let view_index: usize = self.train_views.len();
            self.view_sampler.added_new_item(view_index as u64);
            self.train_frame_id_to_idx.insert(frame_id, view_index);
            self.newest_frame_id = Some(frame_id);
            let host: Option<HostView> = if view.is_host_frame {
                self.host_view_count = self.host_view_count + 1;
                let splats_before: usize = match self.splats {
                    Some(info) => info.num_splats as usize,
                    None => 0,
                };
                let pixels: usize = view.image.bytes.len() / 4;
                Some(HostView { view_index, splats_before, added: unmarked(pixels) })
            } else {
                None
            };
            self.train_views.push(view);
            assert(indexes(self@.train_index, self@.train_views));
            host
        }
    }

    /// Appends splats. Returns what they are made from.
    fn add_by_means(&mut self, arrays: SplatArrays, raw_opacity: u32) -> (new_splats: NewSplats)
        requires
            old(self)@.wf(),
            splat_count(old(self)@.splats) + arrays.means@.len() / 3 <= u32::MAX,
        ensures
            final(self)@.wf(),
            final(self)@ == old(self)@.with_more_splats(arrays.means@.len() / 3),
            new_splats.means == arrays.means,
            new_splats.sh_coeffs == arrays.sh_coeffs,
            new_splats.log_scales == arrays.log_scales,
            new_splats.raw_opacities@ == Seq::new(arrays.means@.len() / 3, |i: int| raw_opacity),
            new_splats.sh_degree == old(self)@.config.sh_degree,
            new_splats.render_mode == old(self)@.config.render_mode,
    {
        let n: usize = arrays.means.len() / 3;
        let splats_before: u32 = match self.splats {
            Some(info) => info.num_splats,
            None => 0,
        };
        let raw_opacities = repeated(raw_opacity, n);
        self.splats = Some(
            SplatInfo { num_splats: splats_before + n as u32, sh_degree: self.config.sh_degree },
        );
        self.has_trainer = false;
        NewSplats {
            means: arrays.means,
            sh_coeffs: arrays.sh_coeffs,
            log_scales: arrays.log_scales,
            raw_opacities,
            sh_degree: self.config.sh_degree,
            render_mode: self.config.render_mode,
        }
    }

    /// Adds a splat for each pixel with depth that lies in a grid cell without
    /// one and has its distance to all others. `existing` are the splats that
    /// there are. Returns nothing if no pixel does.
    pub fn add_with_occupancy_grid<F: Fn(usize) -> Projection, N: Fn([u32; 3], [u32; 3]) -> bool>(
        &mut self,
        host: &mut HostView,
        existing: &Vec<Occupant>,
        raw_opacity: u32,
        f: F,
        near: N,
    ) -> (new_splats: Option<NewSplats>)
        requires
            old(self)@.wf(),
            old(host).wf(old(self)@),
            splat_count(old(self)@.splats) + old(host).added@.len() <= u32::MAX,
            forall|idx: usize| #[trigger] call_requires(f, (idx,)),
            forall|a: [u32; 3], b: [u32; 3]| #[trigger] call_requires(near, (a, b)),
        ensures
            final(self)@.wf(),
            final(host).wf(final(self)@),
            final(host).view_index == old(host).view_index,
            final(host).splats_before == old(host).splats_before,
            grows(old(self)@, final(self)@),
            final(self)@.rng == old(self)@.rng,
            new_splats.is_none() ==> final(self)@ == old(self)@,
            new_splats.is_some() ==> final(self)@.splats.is_some() && !final(self)@.has_trainer,
            forall|
                projection: spec_fn(usize) -> Projection,
                close: spec_fn([u32; 3], [u32; 3]) -> bool,
            |
                #![trigger computes_projection(f, projection), computes_near(near, close)]
                computes_projection(f, projection) && computes_near(near, close) ==> adds_in_free_cells(
                    old(self)@,
                    *old(host),
                    grid_of(existing@),
                    raw_opacity,
                    projection,
                    close,
                    new_splats,
                    *final(host),
                    final(self)@,
                ),
    {
        let ghost depth_seq = self@.depth_of(host.view_index);
        let ghost pred = |i: usize| has_depth(depth_seq[i as int]);
        assert(depth_pixels(self@, *host) == picked(host.added@.len(), pred));
        let view = &self.train_views[host.view_index];
        let total: usize = host.added.len();
        let depth = match &view.depth {
            Some(depth) => depth,
            None => {
                return None;
            },
        };
        let pixels = pixels_with_depth(&**depth, total);
        proof {
            assert(pixels@ == picked(total as nat, pred));
            lemma_picked(total as nat, pred);
            assert forall|k: int| 0 <= k < pixels@.len() implies (#[trigger] pixels@[k]) < total by {
                assert(pixels@.contains(pixels@[k]));
            }
        }
        let mut grid = compute_occupancy_grid(existing);
        let kept = add_in_free_cells(&mut grid, &pixels, &mut host.added, &f, &near);
        proof {
            assert forall|
                projection: spec_fn(usize) -> Projection,
                close: spec_fn([u32; 3], [u32; 3]) -> bool,
            |
                #![trigger computes_projection(f, projection), computes_near(near, close)]
                computes_projection(f, projection) && computes_near(near, close) implies keeps_distance(
                existing@.map_values(|o: Occupant| o.mean),
                kept@,
                close,
            ) by {
                lemma_points_keep_their_distance(grid_of(existing@), projected(pixels@, projection), close);
            }
        }
        if kept.len() == 0 {
            return None;
        }
        let arrays = pack_points(&kept, true);
        Some(self.add_by_means(arrays, raw_opacity))
    }

    /// Adds a splat for each pixel with depth in every n-th column of every
    /// n-th row.
    pub fn add_from_strided_depth<F: Fn(usize) -> Projection>(
        &mut self,
        host: &mut HostView,
        raw_opacity: u32,
        f: F,
    ) -> (new_splats: NewSplats)
        requires
            old(self)@.wf(),
            old(host).wf(old(self)@),
            old(self)@.config.gaussians_init_depth_stride > 0,
            splat_count(old(self)@.splats) + old(host).added@.len() <= u32::MAX,
            forall|idx: usize| #[trigger] call_requires(f, (idx,)),
        ensures
            final(self)@.wf(),
            final(host).wf(final(self)@),
            final(host).view_index == old(host).view_index,
            final(host).splats_before == old(host).splats_before,
            grows(old(self)@, final(self)@),
            adds_on_grid(old(self)@, *old(host), *final(host), final(self)@),
            forall|projection: spec_fn(usize) -> Projection| #[trigger]
                computes_projection(f, projection) ==> describes_grid(
                    old(self)@,
                    *old(host),
                    raw_opacity,
                    projection,
                    new_splats,
                ),
    {
        let view = &self.train_views[host.view_index];
        let total: usize = host.added.len();
        let stride: usize = self.config.gaussians_init_depth_stride;
        let w: usize = view.image.width as usize;
        let h: usize = view.image.height as usize;
        let ghost pred = on_strided_grid(view.depth->0@, w as int, stride as int);
        let pixels: Vec<usize> = match &view.depth {
            Some(depth) => step_strided_grid(&**depth, w, h, stride),
            None => Vec::new(),
        };
        proof {
            assert(pixels@ == picked(total as nat, pred));
            lemma_picked(total as nat, pred);
            assert forall|k: int| 0 <= k < pixels@.len() implies (#[trigger] pixels@[k]) < total by {
                assert(pixels@.contains(pixels@[k]));
            }
        }
        let points = project_pixels(&pixels, &f);
        proof {
            assert(pixels_of(points@).len() == points@.len());
        }
        mark_added(&mut host.added, &pixels);
        let arrays = pack_points(&points, !self.config.init_scales_with_knn);
        self.add_by_means(arrays, raw_opacity)
    }
}

impl IncrementalTrainer {
    /// Adds the first splats of a host view, in the way that the settings ask
    /// for. `existing` are the splats that there are.
    pub fn add_host_view<F: Fn(usize) -> Projection, N: Fn([u32; 3], [u32; 3]) -> bool>(
        &mut self,
        host: &mut HostView,
        existing: &Vec<Occupant>,
        raw_opacity: u32,
        f: F,
        near: N,
    ) -> (new_splats: Option<NewSplats>)
        requires
            old(self)@.wf(),
            old(host).wf(old(self)@),
            old(self)@.config.landmark_add_mode is StridedDepth ==> old(self)@.config.gaussians_init_depth_stride > 0,
            splat_count(old(self)@.splats) + old(host).added@.len() <= u32::MAX,
            forall|idx: usize| #[trigger] call_requires(f, (idx,)),
            forall|a: [u32; 3], b: [u32; 3]| #[trigger] call_requires(near, (a, b)),
        ensures
            final(self)@.wf(),
            final(host).wf(final(self)@),
            final(host).view_index == old(host).view_index,
            final(host).splats_before == old(host).splats_before,
            grows(old(self)@, final(self)@),
            final(self)@.rng == old(self)@.rng,
            new_splats.is_none() ==> final(self)@ == old(self)@,
            new_splats.is_some() ==> final(self)@.splats.is_some() && !final(self)@.has_trainer,
            match old(self)@.config.landmark_add_mode {
                GaussianAddingMode::OccupancyGrid => {
                    forall|
                        projection: spec_fn(usize) -> Projection,
                        close: spec_fn([u32; 3], [u32; 3]) -> bool,
                    |
                        #![trigger computes_projection(f, projection), computes_near(near, close)]
                        computes_projection(f, projection) && computes_near(near, close) ==> adds_in_free_cells(
                            old(self)@,
                            *old(host),
                            grid_of(existing@),
                            raw_opacity,
                            projection,
                            close,
                            new_splats,
                            *final(host),
                            final(self)@,
                        )
                },
                GaussianAddingMode::StridedDepth => {
                    &&& new_splats.is_some()
                    &&& adds_on_grid(old(self)@, *old(host), *final(host), final(self)@)
                    &&& forall|projection: spec_fn(usize) -> Projection| #[trigger]
                        computes_projection(f, projection) ==> describes_grid(
                            old(self)@,
                            *old(host),
                            raw_opacity,
                            projection,
                            new_splats->0,
                        )
                },
            },
    {
        match self.config.landmark_add_mode {
            GaussianAddingMode::OccupancyGrid => self.add_with_occupancy_grid(
                host,
                existing,
                raw_opacity,
                f,
                near,
            ),
            GaussianAddingMode::StridedDepth => Some(self.add_from_strided_depth(host, raw_opacity, f)),
        }
    }
}

/// Whether the function always gives what `weight` says.
pub open spec fn computes_weight<F: Fn(u32) -> u32>(f: F, weight: spec_fn(u32) -> u32) -> bool {
    forall|ssim: u32, out: u32| call_ensures(f, (ssim,), out) ==> out == weight(ssim)
}

/// Pixels that are being drawn, and the generator to draw them with.
pub struct Drawing {
    pub sampler: DensifySampler,
    /// What the generator was made from.
    pub seed: [u8; 32],
    pub rng: SmallRng,
}

/// Whether this starts drawing pixels of a host view: of those without a
/// Gaussian, deep enough, reconstructed worse than the threshold, and of
/// positive weight, `num_samples` or as many as there are.
pub open spec fn starts_drawing(
    state: TrainerState,
    host: HostView,
    ssim: Seq<u32>,
    num_samples: usize,
    weight: spec_fn(u32) -> u32,
    drawing: Option<Drawing>,
) -> bool {
    let threshold = state.config.train_config.densify_ssim_threshold;
    let candidates = picked(
        host.added@.len(),
        densifiable(host.added@, state.depth_of(host.view_index), ssim, threshold),
    );
    let weights = candidates.map_values(|idx: usize| weight(ssim[idx as int]));
    let wanted = vstd::math::min(num_samples as int, positive_candidates(candidates, weights).len() as int);
    &&& drawing.is_some() == (wanted > 0)
    &&& drawing.is_some() ==> {
        &&& drawing->0.sampler.start() == host.added@
        &&& drawing->0.sampler.sampled() == Seq::<usize>::empty()
        &&& drawing->0.sampler.candidates() == positive_candidates(candidates, weights)
        &&& drawing->0.sampler.weights() == positive_weights(weights)
        &&& drawing->0.sampler.wanted() == wanted
    }
}

/// Whether the generator for drawing was made from the bytes that the generator
/// of the trainer gives next, and nothing else changed.
pub open spec fn forks(before: TrainerState, drawing: Drawing, after: TrainerState) -> bool {
    let (bytes, rng) = filled_bytes(before.rng);
    &&& drawing.seed@ == bytes
    &&& after == (TrainerState { rng, ..before })
}

/// Whether the sampler went through these draws since it was started.
pub open spec fn went_through(start: DensifySampler, draws: Seq<usize>, end: DensifySampler) -> bool {
    &&& end.start() == start.start()
    &&& end.candidates() == start.candidates()
    &&& end.weights() == start.weights()
    &&& end.wanted() == start.wanted()
    &&& end.sampled() == absorbed(start.sampled(), start.wanted(), start.candidates(), draws)
}

/// Densification is deterministic: from the same state, the same view and the
/// same similarity map, the generator for drawing is made from the same bytes,
/// and the generator of the trainer is the same afterwards; the same draws take the same pixels in
/// the same order, mark the same pixels and give the same splats, even if one
/// run draws on after it has enough.
pub proof fn lemma_equal_draws_densify_equally(
    state: TrainerState,
    host: HostView,
    ssim: Seq<u32>,
    num_samples: usize,
    weight: spec_fn(u32) -> u32,
    projection: spec_fn(usize) -> Projection,
    a: Option<Drawing>,
    after_a: TrainerState,
    b: Option<Drawing>,
    after_b: TrainerState,
    draws: Seq<usize>,
    more: Seq<usize>,
    end_a: DensifySampler,
    added_a: Seq<bool>,
    end_b: DensifySampler,
    added_b: Seq<bool>,
)
    requires
        starts_drawing(state, host, ssim, num_samples, weight, a),
        starts_drawing(state, host, ssim, num_samples, weight, b),
        a.is_some() ==> forks(state, a->0, after_a),
        b.is_some() ==> forks(state, b->0, after_b),
        a.is_some() ==> went_through(a->0.sampler, draws, end_a),
        b.is_some() ==> went_through(b->0.sampler, draws + more, end_b),
        end_a.wf(added_a),
        end_b.wf(added_b),
        end_a.sampled().len() >= end_a.wanted(),
    ensures
        a.is_some() == b.is_some(),
        a.is_some() ==> {
            &&& a->0.seed == b->0.seed
            &&& after_a == after_b
            &&& a->0.sampler.weights() == b->0.sampler.weights()
            &&& end_a.sampled() == end_b.sampled()
            &&& added_a == added_b
            &&& projected(end_a.sampled(), projection) == projected(end_b.sampled(), projection)
            &&& state.with_more_splats(end_a.sampled().len()) == state.with_more_splats(end_b.sampled().len())
        },
{
    if a.is_some() {
        assert(a->0.seed =~= b->0.seed);
        lemma_equal_draws_take_equal_pixels(end_a, added_a, end_b, added_b, draws, more);
    }
}

/// What is done with a host view after it got its first Gaussians.
pub struct HostTraining {
    /// The optimiser for the first steps.
    pub burst_config: TrainConfig,
    pub burst_steps: u32,
    /// Whether Gaussians are added where the view is reconstructed badly.
    pub densify: bool,
    /// The optimiser for the steps after that.
    pub config: TrainConfig,
    pub steps: u32,
}

impl IncrementalTrainer {
    /// How to train on a host view. `base` are the usual optimiser settings.
    pub fn train_view(&self, base: TrainConfig, lr_mean: u64) -> (training: HostTraining)
        ensures
            ({
                let cfg = self@.config.train_config;
                training == (HostTraining {
                    burst_config: cfg.burst(base, self@.config.render_mode),
                    burst_steps: cfg.densify_at,
                    densify: cfg.densify_max_samples > 0,
                    config: cfg.all_views(base, lr_mean),
                    steps: cfg.single_view_train_steps,
                })
            }),
    {
        let cfg = &self.config.train_config;
        HostTraining {
            burst_config: cfg.burst_train_config(base, self.config.render_mode),
            burst_steps: cfg.densify_at,
            densify: cfg.densify_max_samples > 0,
            config: cfg.create_all_view_train_config(base, lr_mean),
            steps: cfg.single_view_train_steps,
        }
    }

    /// Starts drawing pixels of a host view for densification: those without
    /// a Gaussian, deep enough, reconstructed worse than the threshold, and of
    /// positive weight. They are drawn with a generator of their own. Returns
    /// nothing if there is nothing to draw.
    pub fn start_densify<F: Fn(u32) -> u32>(&mut self, host: &HostView, ssim: &Vec<u32>, num_samples: usize, f: F) -> (drawing:
        Option<Drawing>)
        requires
            old(self)@.wf(),
            old(self)@.splats.is_some(),
            host.wf(old(self)@),
            host.added@.len() <= ssim@.len(),
            forall|s: u32| #[trigger] call_requires(f, (s,)),
        ensures
            final(self)@.wf(),
            grows(old(self)@, final(self)@),
            drawing.is_none() ==> final(self)@ == old(self)@,
            drawing.is_some() ==> forks(old(self)@, drawing->0, final(self)@),
            drawing.is_some() ==> fast_from(drawing->0.seed, drawing->0.rng),
            num_samples == 0 ==> drawing.is_none(),
            drawing.is_some() ==> {
                &&& drawing->0.sampler.wf(host.added@)
                &&& drawing->0.sampler.start() == host.added@
                &&& drawing->0.sampler.sampled() == Seq::<usize>::empty()
                &&& drawing->0.sampler.wanted() > 0
            },
            forall|weight: spec_fn(u32) -> u32| #[trigger]
                computes_weight(f, weight) ==> starts_drawing(
                    old(self)@,
                    *host,
                    ssim@,
                    num_samples,
                    weight,
                    drawing,
                ),
    {
        if num_samples == 0 {
            return None;
        }
        let threshold: u32 = self.config.train_config.densify_ssim_threshold;
        let total: usize = host.added.len();
        let view = &self.train_views[host.view_index];
        let ghost pred = densifiable(host.added@, self@.depth_of(host.view_index), ssim@, threshold);
        let candidates: Vec<usize> = match &view.depth {
            Some(depth) => densify_candidates(&host.added, &**depth, ssim, threshold, total),
            None => Vec::new(),
        };
        let n: usize = candidates.len();
        proof {
            assert(candidates@ == picked(total as nat, pred));
            lemma_picked(total as nat, pred);
            assert forall|k: int| 0 <= k < n implies (#[trigger] candidates@[k]) < total
                && !host.added@[candidates@[k] as int] by {
                assert(candidates@.contains(candidates@[k]));
            }
        }
        let mut weights: Vec<u32> = Vec::new();
        for k in 0..n
            invariant
                n == candidates@.len(),
                weights@.len() == k,
                total <= ssim@.len(),
                forall|k: int| 0 <= k < n ==> (#[trigger] candidates@[k]) < total,
                forall|s: u32| #[trigger] call_requires(f, (s,)),
                forall|weight: spec_fn(u32) -> u32| #[trigger]
                    computes_weight(f, weight) ==> weights@ == candidates@.map_values(
                        |idx: usize| weight(ssim@[idx as int]),
                    ).take(k as int),
        {
            let s: u32 = ssim[candidates[k]];
            let w: u32 = f(s);
            weights.push(w);
            proof {
                assert forall|weight: spec_fn(u32) -> u32| #[trigger] computes_weight(f, weight) implies weights@
                    == candidates@.map_values(|idx: usize| weight(ssim@[idx as int])).take(k + 1) by {
                    let all = candidates@.map_values(|idx: usize| weight(ssim@[idx as int]));
                    assert(w == weight(s));
                    assert(all.take(k + 1) =~= all.take(k as int).push(all[k as int]));
                }
            }
        }
        proof {
            assert forall|weight: spec_fn(u32) -> u32| #[trigger] computes_weight(f, weight) implies weights@
                == candidates@.map_values(|idx: usize| weight(ssim@[idx as int])) by {
                let all = candidates@.map_values(|idx: usize| weight(ssim@[idx as int]));
                assert(all.take(n as int) =~= all);
            }
        }
        let sampler = DensifySampler::new(&candidates, &weights, num_samples, &host.added);
        if sampler.is_done() {
            None
        } else {
            let seed: [u8; 32] = take_seed(&mut self.rng);
            Some(Drawing { sampler, seed, rng: make_fast(seed) })
        }
    }

    /// Adds a splat for each pixel that was drawn, once enough have been.
    /// `const_log_scale` is the
    /// scale that all of them get, unless their neighbours decide.
    pub fn densify<F: Fn(usize) -> Projection>(
        &mut self,
        host: &HostView,
        sampler: DensifySampler,
        const_log_scale: u32,
        raw_opacity: u32,
        f: F,
    ) -> (new_splats: NewSplats)
        requires
            old(self)@.wf(),
            host.wf(old(self)@),
            sampler.wf(host.added@),
            sampler.sampled().len() == sampler.wanted(),
            splat_count(old(self)@.splats) + sampler.sampled().len() <= u32::MAX,
            forall|idx: usize| #[trigger] call_requires(f, (idx,)),
        ensures
            final(self)@.wf(),
            host.wf(final(self)@),
            grows(old(self)@, final(self)@),
            final(self)@ == old(self)@.with_more_splats(sampler.sampled().len()),
            forall|projection: spec_fn(usize) -> Projection| #[trigger]
                computes_projection(f, projection) ==> new_splats.describes(
                    projected(sampler.sampled(), projection),
                    match old(self)@.config.train_config.densify_scale_mode {
                        DensifyScaleMode::Constant => Some(
                            Seq::new(3 * sampler.sampled().len(), |k: int| const_log_scale),
                        ),
                        DensifyScaleMode::Knn => None,
                    },
                    raw_opacity,
                    old(self)@.config,
                ),
    {
        let sampled = sampler.into_sampled();
        let points = project_pixels(&sampled, &f);
        proof {
            assert(pixels_of(points@).len() == points@.len());
        }
        let mut arrays = pack_points(&points, false);
        match self.config.train_config.densify_scale_mode {
            DensifyScaleMode::Constant => {
                let n: usize = arrays.means.len();
                arrays.log_scales = Some(repeated(const_log_scale, n));
            },
            DensifyScaleMode::Knn => {},
        }
        self.add_by_means(arrays, raw_opacity)
    }

    /// Records which splats were made for the host view: all that are there now
    /// and were not there before. They have to be optimised anew.
    pub fn finish_host_view(&mut self, host: HostView)
        requires
            old(self)@.wf(),
            old(self)@.splats.is_some(),
            host.wf(old(self)@),
        ensures
            final(self)@.wf(),
            final(self)@ == old(self)@.with_owned(host),
    {
        let splats_after: usize = self.splats.unwrap().num_splats as usize;
        self.has_trainer = false;
        let frame_id: FrameId = self.train_views[host.view_index].frame_id;
        self.corresponding_splats.insert(frame_id, (host.splats_before, splats_after));
    }

    /// The batch of a training view.
    pub fn build_scene_batch(&self, view: &ViewData) -> (batch: TrainBatch)
        requires
            self@.train_index.dom().contains(view.frame_id),
        ensures
            batch == (TrainBatch {
                image: view.image,
                alpha_mode: AlphaMode::Masked,
                camera: view.camera,
                depth: view.depth,
                view_index: self@.train_index[view.frame_id],
            }),
    {
        let view_index: usize = *self.train_frame_id_to_idx.get(&view.frame_id).unwrap();
        batch_of(view, view_index)
    }

    /// The reciprocals of the weights from which the place of the next
    /// training view has to be drawn, if the strategy is the weighted one.
    pub fn sampling_weights(&self) -> (weights: Option<Vec<u64>>)
        ensures
            weights.is_some() == (self@.sampler.strategy() is Weighted),
            weights.is_some() ==> {
                &&& weights->0@.len() == self@.sampler.frames().len()
                &&& forall|i: int|
                    0 <= i < weights->0@.len() ==> #[trigger] weights->0@[i] == self@.sampler.counts()[i] + 1
            },
    {
        self.view_sampler.inverse_weights()
    }

    /// The generator, to draw the place of the next training view with.
    pub fn generator(&mut self) -> (rng: &mut StdRng)
        ensures
            *rng == old(self)@.rng,
            final(self)@ == (TrainerState { rng: *final(rng), ..old(self)@ }),
    {
        &mut self.rng
    }

    /// The batch of a training view that the sampler picks.
    pub fn get_next_train_batch(&mut self, drawn: Option<usize>) -> (batch: TrainBatch)
        requires
            old(self)@.wf(),
            old(self)@.sampler.can_sample(drawn),
        ensures
            final(self)@.wf(),
            ({
                let i = batch.view_index;
                let view = old(self)@.train_views[i as int];
                &&& i < old(self)@.train_views.len()
                &&& old(self)@.sampler.allows(drawn, i as u64)
                &&& batch == (TrainBatch {
                    image: view.image,
                    alpha_mode: AlphaMode::Masked,
                    camera: view.camera,
                    depth: view.depth,
                    view_index: i,
                })
            }),
            exists|r: &mut StdRng|
                {
                    &&& #[trigger] old(self)@.sampler.draws(drawn, r, batch.view_index as u64)
                    &&& *r == old(self)@.rng
                    &&& *final(r) == final(self)@.rng
                },
            final(self)@ == (TrainerState { sampler: final(self)@.sampler, rng: final(self)@.rng, ..old(self)@ }),
            final(self)@.sampler.frames() == old(self)@.sampler.frames(),
            final(self)@.sampler.strategy() == old(self)@.sampler.strategy(),
            old(self)@.sampler.strategy() is Weighted ==> final(self)@.sampler.counts() == old(
                self,
            )@.sampler.counts().update(
                drawn->0 as int,
                counted(old(self)@.sampler.counts()[drawn->0 as int]),
            ),
    {
        let ghost before = self@;
        let picked_view: u64 = self.view_sampler.sample(&mut self.rng, drawn);
        let count: usize = self.train_views.len();
        proof {
            let frames = before.sampler.frames();
            let k = frames.index_of(picked_view);
            assert(frames[k] == k);
            assert(picked_view < count);
        }
        let view_index: usize = picked_view as usize;
        assert(view_index as u64 == picked_view);
        batch_of(&self.train_views[view_index], view_index)
    }
}

fn batch_of(view: &ViewData, view_index: usize) -> (batch: TrainBatch)
    ensures
        batch == (TrainBatch {
            image: view.image,
            alpha_mode: AlphaMode::Masked,
            camera: view.camera,
            depth: view.depth,
            view_index,
        }),
{
    TrainBatch {
        image: share(&view.image),
        alpha_mode: AlphaMode::Masked,
        camera: view.camera,
        depth: match &view.depth {
            Some(depth) => Some(share(depth)),
            None => None,
        },
        view_index,
    }
}

/// A frame with its new camera-to-world pose.
pub type NewPose = (FrameId, [u32; 3], [u32; 4]);

/// A rigid motion: translation and rotation.
pub type Motion = ([u32; 3], [u32; 4]);

/// Whether the function always gives what `motion` says.
pub open spec fn computes_motion<F: Fn(Camera, [u32; 3], [u32; 4]) -> Motion>(
    f: F,
    motion: spec_fn(Camera, [u32; 3], [u32; 4]) -> Motion,
) -> bool {
    forall|camera: Camera, position: [u32; 3], rotation: [u32; 4], out: Motion|
        call_ensures(f, (camera, position, rotation), out) ==> out == motion(camera, position, rotation)
}

/// The view seen from another pose.
pub open spec fn reposed(view: ViewData, position: [u32; 3], rotation: [u32; 4]) -> ViewData {
    ViewData { camera: view.camera.posed(position, rotation), ..view }
}

/// The training views after the new poses, in the order in which they came.
pub open spec fn reposed_views(state: TrainerState, poses: Seq<NewPose>) -> Seq<ViewData>
    decreases poses.len(),
{
    if poses.len() == 0 {
        state.train_views
    } else {
        let views = reposed_views(state, poses.drop_last());
        let (f, position, rotation) = poses.last();
        if state.train_index.dom().contains(f) {
            let i = state.train_index[f] as int;
            views.update(i, reposed(views[i], position, rotation))
        } else {
            views
        }
    }
}

/// How splats have to follow new poses: those of a host frame move as its
/// camera does.
pub open spec fn splat_updates(
    state: TrainerState,
    poses: Seq<NewPose>,
    motion: spec_fn(Camera, [u32; 3], [u32; 4]) -> Motion,
) -> Seq<PoseUpdate>
    decreases poses.len(),
{
    if poses.len() == 0 {
        Seq::empty()
    } else {
        let rest = poses.drop_last();
        let updates = splat_updates(state, rest, motion);
        let (f, position, rotation) = poses.last();
        if state.train_index.dom().contains(f) && state.corresponding_splats.dom().contains(f) {
            let camera = reposed_views(state, rest)[state.train_index[f] as int].camera;
            let (translation, turn) = motion(camera, position, rotation);
            updates.push(
                PoseUpdate {
                    translation,
                    rotation: turn,
                    start: state.corresponding_splats[f].0,
                    end: state.corresponding_splats[f].1,
                },
            )
        } else {
            updates
        }
    }
}

/// New poses change nothing of a view but where its camera is.
pub proof fn lemma_reposing_keeps_views(state: TrainerState, poses: Seq<NewPose>)
    requires
        state.wf(),
    ensures
        reposed_views(state, poses).len() == state.train_views.len(),
        forall|i: int|
            0 <= i < state.train_views.len() ==> {
                let now = #[trigger] reposed_views(state, poses)[i];
                now == reposed(state.train_views[i], now.camera.position, now.camera.rotation)
            },
    decreases poses.len(),
{
    if poses.len() > 0 {
        lemma_reposing_keeps_views(state, poses.drop_last());
    }
}

/// The last pose of a frame counts: its view has that pose.
pub proof fn lemma_last_pose_counts(state: TrainerState, poses: Seq<NewPose>, k: int)
    requires
        state.wf(),
        0 <= k < poses.len(),
        state.train_index.dom().contains(poses[k].0),
        forall|j: int| k < j < poses.len() ==> (#[trigger] poses[j]).0 != poses[k].0,
    ensures
        ({
            let camera = reposed_views(state, poses)[state.train_index[poses[k].0] as int].camera;
            camera.position == poses[k].1 && camera.rotation == poses[k].2
        }),
    decreases poses.len(),
{
    let rest = poses.drop_last();
    lemma_reposing_keeps_views(state, rest);
    if k < poses.len() - 1 {
        assert(rest[k] == poses[k]);
        assert forall|j: int| k < j < rest.len() implies (#[trigger] rest[j]).0 != rest[k].0 by {
            assert(poses[j].0 != poses[k].0);
        }
        lemma_last_pose_counts(state, rest, k);
        let f = poses.last().0;
        assert(poses[poses.len() - 1].0 != poses[k].0);
        if state.train_index.dom().contains(f) {
            assert(state.train_views[state.train_index[f] as int].frame_id == f);
            assert(state.train_views[state.train_index[poses[k].0] as int].frame_id == poses[k].0);
        }
    }
}

impl IncrementalTrainer {
    /// Moves cameras to new poses. Returns how splats have to follow; nothing
    /// if none have to.
    pub fn update_poses<F: Fn(Camera, [u32; 3], [u32; 4]) -> Motion>(&mut self, new_poses: &Vec<NewPose>, f: F) -> (updates:
        Option<Vec<PoseUpdate>>)
        requires
            old(self)@.wf(),
            forall|camera: Camera, position: [u32; 3], rotation: [u32; 4]| #[trigger]
                call_requires(f, (camera, position, rotation)),
        ensures
            final(self)@.wf(),
            final(self)@ == (TrainerState { train_views: reposed_views(old(self)@, new_poses@), ..old(self)@ }),
            forall|motion: spec_fn(Camera, [u32; 3], [u32; 4]) -> Motion| #[trigger]
                computes_motion(f, motion) ==> {
                    let all = splat_updates(old(self)@, new_poses@, motion);
                    &&& updates.is_some() == (all.len() > 0 && old(self)@.splats.is_some())
                    &&& updates.is_some() ==> updates->0@ == all
                },
            updates.is_some() ==> old(self)@.splats.is_some() && forall|k: int|
                0 <= k < updates->0@.len() ==> in_rows(
                    #[trigger] updates->0@[k],
                    splat_count(old(self)@.splats) * ROW as nat,
                ),
    {
        let ghost before = self@;
        let n: usize = new_poses.len();
        let mut updates: Vec<PoseUpdate> = Vec::new();
        for k in 0..n
            invariant
                n == new_poses@.len(),
                before.wf(),
                self@ == (TrainerState { train_views: reposed_views(before, new_poses@.take(k as int)), ..before }),
                forall|camera: Camera, position: [u32; 3], rotation: [u32; 4]| #[trigger]
                    call_requires(f, (camera, position, rotation)),
                forall|motion: spec_fn(Camera, [u32; 3], [u32; 4]) -> Motion| #[trigger]
                    computes_motion(f, motion) ==> updates@ == splat_updates(before, new_poses@.take(k as int), motion),
                forall|j: int|
                    0 <= j < updates@.len() ==> in_rows(
                        #[trigger] updates@[j],
                        splat_count(before.splats) * ROW as nat,
                    ),
        {
            let (frame_id, position, rotation): NewPose = new_poses[k];
            proof {
                assert(new_poses@.take(k + 1).drop_last() =~= new_poses@.take(k as int));
                lemma_reposing_keeps_views(before, new_poses@.take(k as int));
            }
            let found = self.train_frame_id_to_idx.get(&frame_id);
            if let Some(found_idx) = found {
                let idx: usize = *found_idx;
                let prev_camera: Camera = self.train_views[idx].camera;
                let owned = self.corresponding_splats.get(&frame_id);
                if let Some(range) = owned {
                    let (start, end): (usize, usize) = *range;
                    let (translation, turn): Motion = f(prev_camera, position, rotation);
                    updates.push(PoseUpdate { translation, rotation: turn, start, end });
                    proof {
                        assert(end * ROW <= splat_count(before.splats) * ROW) by (nonlinear_arith)
                            requires
                                end <= splat_count(before.splats),
                        ;
                    }
                }
                let ghost views = self.train_views@;
                self.train_views[idx].camera = prev_camera.with_pose(position, rotation);
                assert(self.train_views@ =~= views.update(idx as int, reposed(views[idx as int], position, rotation)));
            }
        }
        proof {
            assert(new_poses@.take(n as int) =~= new_poses@);
            lemma_reposing_keeps_views(before, new_poses@);
            let views = reposed_views(before, new_poses@);
            assert forall|f: i64| #[trigger] before.train_index.dom().contains(f) implies before.train_index[f] < views.len()
                && views[before.train_index[f] as int].frame_id == f by {}
            assert forall|i: int| 0 <= i < views.len() implies before.train_index.dom().contains(
                (#[trigger] views[i]).frame_id,
            ) by {
                assert(before.train_index.dom().contains(before.train_views[i].frame_id));
            }
        }
        if updates.len() == 0 || self.splats.is_none() {
            None
        } else {
            Some(updates)
        }
    }
}

/// What training on all views needs before its first step.
pub struct AllViewTraining {
    /// The settings of a new optimiser, if there is none yet.
    pub new_trainer: Option<TrainConfig>,
    /// For how many views poses are optimised, if they are.
    pub pose_opt_views: Option<usize>,
}

/// The messages that a trainer receives, without what they carry.
#[derive(Clone, Copy, Debug, PartialEq, Eq)]
pub enum IncrementalTrainMessage {
    ComputeUnreconstructedAreaAndSSIM,
    NewView,
    ExternalPoseUpdate,
    Train,
    Eval,
    Stop,
}

/// What came of trying to receive a message.
#[derive(Clone, Copy, Debug, PartialEq, Eq)]
pub enum Received {
    Message(IncrementalTrainMessage),
    Empty,
    Disconnected,
}

/// What the trainer does next.
#[derive(Clone, Copy, Debug, PartialEq, Eq)]
pub enum LoopAction {
    /// Answer with the unreconstructed area and the similarity.
    ComputeAreaAndSsim,
    /// Take the up axis of the view and add it.
    AddView,
    UpdatePoses,
    Train,
    /// Answer with the quality on the training views or the evaluation views.
    Eval { train_views: bool },
    Stop,
}

/// What is done about what was received. Without a message there is time to
/// train.
pub open spec fn action_for(received: Received, eval_train_views: bool) -> LoopAction {
    match received {
        Received::Message(IncrementalTrainMessage::ComputeUnreconstructedAreaAndSSIM) => {
            LoopAction::ComputeAreaAndSsim
        },
        Received::Message(IncrementalTrainMessage::NewView) => LoopAction::AddView,
        Received::Message(IncrementalTrainMessage::ExternalPoseUpdate) => LoopAction::UpdatePoses,
        Received::Message(IncrementalTrainMessage::Train) => LoopAction::Train,
        Received::Message(IncrementalTrainMessage::Eval) => LoopAction::Eval { train_views: eval_train_views },
        Received::Message(IncrementalTrainMessage::Stop) => LoopAction::Stop,
        Received::Empty => LoopAction::Train,
        Received::Disconnected => LoopAction::Stop,
    }
}

/// What a run does, one action for each outcome of receiving, up to the first
/// that stops it. `received` is what would be received if nothing stopped it.
pub open spec fn run_actions(received: Seq<Received>, eval_train_views: bool) -> Seq<LoopAction>
    decreases received.len(),
{
    if received.len() == 0 || action_for(received[0], eval_train_views) is Stop {
        Seq::empty()
    } else {
        seq![action_for(received[0], eval_train_views)] + run_actions(received.drop_first(), eval_train_views)
    }
}

/// Whether the outcome ends a run.
pub open spec fn ends_run(received: Received) -> bool {
    received == Received::Message(IncrementalTrainMessage::Stop) || received is Disconnected
}

/// Messages are handled once each and in order, up to the first that asks to
/// stop or until the channel is closed; what comes after that is never handled.
pub proof fn lemma_messages_are_handled_in_order(
    handled: Seq<Received>,
    end: Received,
    ignored: Seq<Received>,
    eval_train_views: bool,
)
    requires
        forall|i: int| 0 <= i < handled.len() ==> !ends_run(#[trigger] handled[i]),
        ends_run(end),
    ensures
        run_actions(handled + seq![end] + ignored, eval_train_views) == handled.map_values(
            |received: Received| action_for(received, eval_train_views),
        ),
    decreases handled.len(),
{
    let all = handled + seq![end] + ignored;
    let actions = handled.map_values(|received: Received| action_for(received, eval_train_views));
    if handled.len() == 0 {
        assert(all[0] == end);
        assert(actions =~= Seq::empty());
    } else {
        let rest = handled.drop_first();
        assert(all[0] == handled[0]);
        assert(!ends_run(handled[0]));
        assert(all.drop_first() =~= rest + seq![end] + ignored);
        assert forall|i: int| 0 <= i < rest.len() implies !ends_run(#[trigger] rest[i]) by {
            assert(rest[i] == handled[i + 1]);
        }
        lemma_messages_are_handled_in_order(rest, end, ignored, eval_train_views);
        assert(actions =~= seq![actions[0]] + rest.map_values(
            |received: Received| action_for(received, eval_train_views),
        ));
    }
}

/// 1.0
pub const WHOLE_AREA: u32 = 0x3F800000;

/// -1.0
pub const WORST_SSIM: u32 = 0xBF800000;

/// The cameras replaced, as far as there are new ones.
pub open spec fn with_cameras(views: Seq<ViewData>, cameras: Seq<Camera>) -> Seq<ViewData> {
    Seq::new(
        views.len(),
        |i: int|
            if i < cameras.len() {
                ViewData { camera: cameras[i], ..views[i] }
            } else {
                views[i]
            },
    )
}

impl IncrementalTrainer {
    /// What to do about what was received. Without a message there is time to
    /// train.
    pub fn next_action(&self, received: Received) -> (action: LoopAction)
        ensures
            action == action_for(received, self@.config.eval_train_views),
    {
        match received {
            Received::Message(message) => match message {
                IncrementalTrainMessage::ComputeUnreconstructedAreaAndSSIM => LoopAction::ComputeAreaAndSsim,
                IncrementalTrainMessage::NewView => LoopAction::AddView,
                IncrementalTrainMessage::ExternalPoseUpdate => LoopAction::UpdatePoses,
                IncrementalTrainMessage::Train => LoopAction::Train,
                IncrementalTrainMessage::Eval => LoopAction::Eval { train_views: self.config.eval_train_views },
                IncrementalTrainMessage::Stop => LoopAction::Stop,
            },
            Received::Empty => LoopAction::Train,
            Received::Disconnected => LoopAction::Stop,
        }
    }

    /// The unreconstructed area and the similarity without splats: all of the
    /// image, and none.
    pub fn area_and_ssim_without_splats(&self) -> (result: Option<(u32, u32)>)
        ensures
            result == (if self@.splats.is_none() {
                Some((WHOLE_AREA, WORST_SSIM))
            } else {
                None
            }),
            result.is_some() ==> result->0 == (0x3F80_0000u32, 0xBF80_0000u32),
    {
        if self.splats.is_none() {
            Some((WHOLE_AREA, WORST_SSIM))
        } else {
            None
        }
    }

    /// The quality without anything to evaluate: without splats, or without
    /// views.
    pub fn eval_without_views(&self, eval_train: bool) -> (result: Option<(u32, u32)>)
        ensures
            result == (if self@.splats.is_none() || self@.views_for(eval_train).len() == 0 {
                Some((0u32, 0u32))
            } else {
                None
            }),
            result.is_some() == (self@.splats.is_none() || (eval_train && self@.train_views.len() == 0) || (!eval_train
                && self@.eval_views.len() == 0)),
    {
        let count: usize = if eval_train {
            self.train_views.len()
        } else {
            self.eval_views.len()
        };
        if self.splats.is_none() || count == 0 {
            Some((0, 0))
        } else {
            None
        }
    }

    /// The views on which the splats are evaluated. Without splats there is
    /// nothing to evaluate.
    pub fn views_to_evaluate(&self, eval_train: bool) -> (views: Vec<(Camera, Arc<RasterImage>)>)
        ensures
            views@ == (if self@.splats.is_none() {
                Seq::empty()
            } else {
                self@.views_for(eval_train).map_values(|view: ViewData| (view.camera, view.image))
            }),
            self@.splats.is_some() && eval_train ==> views@.len() == self@.train_views.len() && forall|i: int|
                0 <= i < views@.len() ==> #[trigger] views@[i] == (self@.train_views[i].camera, self@.train_views[i].image),
            self@.splats.is_some() && !eval_train ==> views@.len() == self@.eval_views.len() && forall|i: int|
                0 <= i < views@.len() ==> #[trigger] views@[i] == (self@.eval_views[i].camera, self@.eval_views[i].image),
    {
        let mut views: Vec<(Camera, Arc<RasterImage>)> = Vec::new();
        if self.splats.is_none() {
            assert(views@ =~= Seq::empty());
            return views;
        }
        let chosen: &Vec<ViewData> = if eval_train {
            &self.train_views
        } else {
            &self.eval_views
        };
        let n: usize = chosen.len();
        let ghost all = chosen@.map_values(|view: ViewData| (view.camera, view.image));
        for i in 0..n
            invariant
                n == chosen@.len(),
                all == chosen@.map_values(|view: ViewData| (view.camera, view.image)),
                views@ == all.take(i as int),
        {
            views.push((chosen[i].camera, share(&chosen[i].image)));
            assert(all.take(i + 1) =~= all.take(i as int).push(all[i as int]));
        }
        assert(all.take(n as int) =~= all);
        views
    }

    /// Prepares training on all views for the given time. Returns nothing if
    /// there is no time.
    pub fn train(&mut self, train_nanos: u128, base: TrainConfig, lr_mean: u64) -> (training: Option<AllViewTraining>)
        requires
            train_nanos != 0 ==> old(self)@.splats.is_some(),
        ensures
            training.is_some() == (train_nanos != 0),
            training.is_none() ==> final(self)@ == old(self)@,
            training.is_some() ==> {
                let cfg = old(self)@.config.train_config;
                &&& final(self)@ == (TrainerState { has_trainer: true, ..old(self)@ })
                &&& training->0.new_trainer == (if old(self)@.has_trainer {
                    None
                } else {
                    Some(cfg.all_views(base, lr_mean))
                })
                &&& training->0.pose_opt_views == (if cfg.pose_opt {
                    Some(old(self)@.train_views.len() as usize)
                } else {
                    None
                })
            },
    {
        if train_nanos == 0 {
            return None;
        }
        Some(self.ensure_trainer(base, lr_mean))
    }

    /// Makes sure that there is an optimiser for all views.
    fn ensure_trainer(&mut self, base: TrainConfig, lr_mean: u64) -> (training: AllViewTraining)
        ensures
            ({
                let cfg = old(self)@.config.train_config;
                &&& final(self)@ == (TrainerState { has_trainer: true, ..old(self)@ })
                &&& training.new_trainer == (if old(self)@.has_trainer {
                    None
                } else {
                    Some(cfg.all_views(base, lr_mean))
                })
                &&& training.pose_opt_views == (if cfg.pose_opt {
                    Some(old(self)@.train_views.len() as usize)
                } else {
                    None
                })
            }),
    {
        let new_trainer: Option<TrainConfig> = if self.has_trainer {
            None
        } else {
            Some(self.config.train_config.create_all_view_train_config(base, lr_mean))
        };
        self.has_trainer = true;
        let pose_opt_views: Option<usize> = if self.config.train_config.pose_opt {
            Some(self.train_views.len())
        } else {
            None
        };
        AllViewTraining { new_trainer, pose_opt_views }
    }

    /// Takes over corrected cameras after training.
    pub fn correct_cameras(&mut self, corrected: &Vec<Camera>)
        requires
            old(self)@.wf(),
        ensures
            final(self)@.wf(),
            final(self)@ == (TrainerState {
                train_views: with_cameras(old(self)@.train_views, corrected@),
                ..old(self)@
            }),
            forall|i: int|
                0 <= i < old(self)@.train_views.len() ==> (#[trigger] final(self)@.train_views[i]).camera == (if i
                    < corrected@.len() {
                    corrected@[i]
                } else {
                    old(self)@.train_views[i].camera
                }),
    {
        let ghost before = self@;
        let n: usize = if corrected.len() < self.train_views.len() {
            corrected.len()
        } else {
            self.train_views.len()
        };
        assert(before.train_views =~= with_cameras(before.train_views, corrected@.take(0)));
        for i in 0..n
            invariant
                n <= corrected@.len(),
                n <= before.train_views.len(),
                self@ == (TrainerState {
                    train_views: with_cameras(before.train_views, corrected@.take(i as int)),
                    ..before
                }),
        {
            self.train_views[i].camera = corrected[i];
            assert(self.train_views@ =~= with_cameras(before.train_views, corrected@.take(i + 1)));
        }
        assert(with_cameras(before.train_views, corrected@.take(n as int)) =~= with_cameras(
            before.train_views,
            corrected@,
        ));
        proof {
            let views = with_cameras(before.train_views, corrected@);
            assert forall|i: int| 0 <= i < views.len() implies before.train_index.dom().contains(
                (#[trigger] views[i]).frame_id,
            ) by {
                assert(before.train_index.dom().contains(before.train_views[i].frame_id));
            }
        }
    }

    /// The cameras of the training views, in their order.
    pub fn train_cameras(&self) -> (cameras: Vec<Camera>)
        ensures
            cameras@ == self@.train_views.map_values(|view: ViewData| view.camera),
    {
        let n: usize = self.train_views.len();
        let ghost all = self.train_views@.map_values(|view: ViewData| view.camera);
        let mut cameras: Vec<Camera> = Vec::new();
        for i in 0..n
            invariant
                n == self.train_views@.len(),
                all == self.train_views@.map_values(|view: ViewData| view.camera),
                cameras@ == all.take(i as int),
        {
            cameras.push(self.train_views[i].camera);
            assert(all.take(i + 1) =~= all.take(i as int).push(all[i as int]));
        }
        assert(all.take(n as int) =~= all);
        cameras
    }

    /// The camera of the newest training view.
    fn newest_view_camera(&self) -> (camera: Option<Camera>)
        requires
            self@.wf(),
        ensures
            camera == self@.newest_camera(),
    {
        match self.newest_frame_id {
            Some(frame_id) => match self.train_frame_id_to_idx.get(&frame_id) {
                Some(idx) => Some(self.train_views[*idx].camera),
                None => None,
            },
            None => None,
        }
    }

    /// What the viewers are told about the splats. They are told once that
    /// loading is done, the up axis at most once each time it is taken, and
    /// where the newest view is.
    pub fn update_splat_in_ui(&mut self) -> (messages: Vec<ProcessMessage>)
        requires
            old(self)@.wf(),
        ensures
            final(self)@.wf(),
            messages@ == old(self)@.splat_messages(),
            final(self)@ == (if old(self)@.splats.is_some() && old(self)@.viewers.is_some() {
                TrainerState { viewers: Some(true), up_axis: None, ..old(self)@ }
            } else {
                old(self)@
            }),
    {
        let focus_camera = self.newest_view_camera();
        match (self.splats, self.ui_ctx) {
            (Some(info), Some(ctx)) => {
                let mut messages = splats_news_messages(info, self.up_axis, !ctx.splat_sender_initialized);
                self.ui_ctx = Some(UpdateUiContext { splat_sender_initialized: true });
                self.up_axis = None;
                if let Some(camera) = focus_camera {
                    messages.push(ProcessMessage::FocusCamera { camera });
                }
                messages
            },
            _ => Vec::new(),
        }
    }

    /// What the viewers are told at the start.
    pub fn init_ui(&self) -> (messages: Vec<ProcessMessage>)
        ensures
            messages@ == (if self@.viewers.is_some() {
                opening(None)
            } else {
                Seq::empty()
            }),
    {
        if self.ui_ctx.is_some() {
            opening_messages(None)
        } else {
            Vec::new()
        }
    }

    /// What lists the training views for the viewers, if there are viewers.
    pub fn update_ui_dataset(&self) -> (message: Option<ProcessMessage>)
        ensures
            message.is_some() == self@.viewers.is_some(),
            message.is_some() ==> exists|views: Seq<Arc<SceneView>>|
                lists_views(message->0, views) && #[trigger] shows(views, self@.train_views),
    {
        if self.ui_ctx.is_some() {
            let views = collect_scene_views(&self.train_views);
            let ghost listed = views@;
            let message = dataset_message(views);
            assert(shows(listed, self@.train_views));
            Some(message)
        } else {
            None
        }
    }

    /// What the viewers are told about the progress of training.
    pub fn update_train_status_ui(&self, total_elapsed: u128) -> (messages: Vec<ProcessMessage>)
        ensures
            messages@ == (if self@.viewers.is_some() {
                status(self@.splats, 0, total_elapsed)
            } else {
                Seq::empty()
            }),
    {
        if self.ui_ctx.is_some() {
            status_messages(self.splats, 0, total_elapsed)
        } else {
            Vec::new()
        }
    }

    /// What the viewers are told about an evaluation.
    pub fn update_eval_ui(&self, avg_psnr: u32, avg_ssim: u32) -> (messages: Vec<ProcessMessage>)
        ensures
            messages@ == (if self@.viewers.is_some() {
                seq![ProcessMessage::EvalResult { iter: 0, avg_psnr, avg_ssim }]
            } else {
                Seq::empty()
            }),
    {
        let mut messages: Vec<ProcessMessage> = Vec::new();
        if self.ui_ctx.is_some() {
            messages.push(ProcessMessage::EvalResult { iter: 0, avg_psnr, avg_ssim });
        }
        messages
    }
}

impl TrainerState {
    /// The camera of the newest training view.
    pub open spec fn newest_camera(self) -> Option<Camera> {
        match self.newest_frame {
            Some(f) => if self.train_index.dom().contains(f) {
                Some(self.train_views[self.train_index[f] as int].camera)
            } else {
                None
            },
            None => None,
        }
    }

    /// The views for an evaluation: of the training views or of the others.
    pub open spec fn views_for(self, eval_train: bool) -> Seq<ViewData> {
        if eval_train {
            self.train_views
        } else {
            self.eval_views
        }
    }

    /// What the viewers are told about the splats.
    pub open spec fn splat_messages(self) -> Seq<ProcessMessage> {
        match (self.splats, self.viewers) {
            (Some(info), Some(told)) => {
                let news = splats_news(info, self.up_axis, !told);
                match self.newest_camera() {
                    Some(camera) => news.push(ProcessMessage::FocusCamera { camera }),
                    None => news,
                }
            },
            _ => Seq::empty(),
        }
    }
}

/// Whether the list shows each view by the name of its image and its camera,
/// in the same order.
pub open spec fn shows(list: Seq<Arc<SceneView>>, views: Seq<ViewData>) -> bool {
    &&& list.len() == views.len()
    &&& forall|i: int|
        0 <= i < views.len() ==> {
            &&& (#[trigger] list[i]).image_name@ == image_name(views[i].frame_id as int)
            &&& list[i].files.is_none()
            &&& list[i].camera == views[i].camera
        }
}

/// Lists views for the viewers.
pub fn collect_scene_views(views: &Vec<ViewData>) -> (list: Vec<Arc<SceneView>>)
    ensures
        shows(list@, views@),
{
    let n: usize = views.len();
    let mut list: Vec<Arc<SceneView>> = Vec::new();
    for i in 0..n
        invariant
            n == views@.len(),
            shows(list@, views@.take(i as int)),
    {
        list.push(
            Arc::new(
                SceneView { image_name: image_file_name(views[i].frame_id), files: None, camera: views[i].camera },
            ),
        );
        assert(shows(list@, views@.take(i + 1)));
    }
    assert(views@.take(n as int) =~= views@);
    list
}

impl IncrementalTrainer {
    /// Whether the next export is due. `next_export_secs` is the time between
    /// exports, times the export count.
    pub fn export_due(&self, training_secs: u64, next_export_secs: u64) -> (due: bool)
        ensures
            due == (self@.config.export_every_secs.is_some() && less64(next_export_secs, training_secs)),
    {
        self.config.export_every_secs.is_some() && lt64(next_export_secs, training_secs)
    }

    /// The number of the next export, counted from one.
    pub fn export_count(&self) -> (count: u64)
        ensures
            count == self@.export_count,
    {
        self.export_count
    }

    /// Counts an export.
    pub fn exported(&mut self)
        requires
            old(self)@.export_count < u64::MAX,
        ensures
            final(self)@ == (TrainerState { export_count: old(self)@.export_count + 1, ..old(self)@ }),
    {
        self.export_count = self.export_count + 1;
    }

    /// The up axis that the viewers have not been told yet.
    pub fn up_axis(&self) -> (axis: Option<[u32; 3]>)
        ensures
            axis == self@.up_axis,
    {
        self.up_axis
    }

    /// Whether there are splats to export.
    pub fn has_splats(&self) -> (has: bool)
        ensures
            has == self@.splats.is_some(),
    {
        self.splats.is_some()
    }

    /// The cameras of the training views by frame id. Views of the same frame
    /// stay in their order.
    pub fn export_poses(&self) -> (poses: Vec<(FrameId, Camera)>)
        ensures
            exists|order: Seq<usize>| #[trigger]
                is_order(order, frame_ids(self@.train_views), self@.train_views.len()) && poses@ == poses_in_order(
                    self@.train_views,
                    order,
                ),
            poses@.len() == self@.train_views.len(),
            forall|p: int, q: int| 0 <= p < q < poses@.len() ==> (#[trigger] poses@[p]).0 <= (#[trigger] poses@[q]).0,
            forall|i: int|
                0 <= i < self@.train_views.len() ==> poses@.contains(
                    ((#[trigger] self@.train_views[i]).frame_id, self@.train_views[i].camera),
                ),
    {
        let n: usize = self.train_views.len();
        let ghost ids = frame_ids(self.train_views@);
        let mut keys: Vec<FrameId> = Vec::new();
        for i in 0..n
            invariant
                n == self.train_views@.len(),
                ids == frame_ids(self.train_views@),
                keys@ == ids.take(i as int),
        {
            keys.push(self.train_views[i].frame_id);
            assert(ids.take(i + 1) =~= ids.take(i as int).push(ids[i as int]));
        }
        assert(ids.take(n as int) =~= ids);
        let order = stable_order(&keys);
        let ghost all = poses_in_order(self.train_views@, order@);
        let mut poses: Vec<(FrameId, Camera)> = Vec::new();
        for p in 0..n
            invariant
                n == self.train_views@.len(),
                is_order(order@, ids, n as nat),
                all == poses_in_order(self.train_views@, order@),
                poses@ == all.take(p as int),
        {
            let i: usize = order[p];
            poses.push((self.train_views[i].frame_id, self.train_views[i].camera));
            assert(all.take(p + 1) =~= all.take(p as int).push(all[p as int]));
        }
        assert(all.take(n as int) =~= all);
        assert(is_order(order@, frame_ids(self@.train_views), self@.train_views.len()));
        proof {
            lemma_poses_are_exported_in_order(self@.train_views, order@);
        }
        poses
    }

    /// What is written about an export.
    pub fn export_meta_info(&self, timestamp_ns: u128) -> (info: MetaInfo)
        requires
            self@.splats.is_some(),
        ensures
            info == (MetaInfo {
                timestamp_ns,
                train_view_count: self@.train_views.len() as usize,
                host_view_count: self@.host_view_count as usize,
                num_splats: self@.splats->0.num_splats,
            }),
    {
        MetaInfo {
            timestamp_ns,
            train_view_count: self.train_views.len(),
            host_view_count: self.host_view_count,
            num_splats: self.splats.unwrap().num_splats,
        }
    }
}

/// Viewers are told only once that loading is done: after they have been told
/// something about splats, nothing says it again.
pub proof fn lemma_loading_is_done_once(before: TrainerState, after: TrainerState)
    requires
        before.splats.is_some(),
        before.viewers.is_some(),
        after.viewers == Some(true),
    ensures
        before.splat_messages().contains(ProcessMessage::DoneLoading) == (before.viewers == Some(false)),
        !after.splat_messages().contains(ProcessMessage::DoneLoading),
{
    if before.viewers == Some(false) {
        assert(before.splat_messages()[0] == ProcessMessage::DoneLoading);
    }
}

/// The frames of views.
pub open spec fn frame_ids(views: Seq<ViewData>) -> Seq<FrameId> {
    views.map_values(|view: ViewData| view.frame_id)
}

/// Frames and cameras of views in another order.
pub open spec fn poses_in_order(views: Seq<ViewData>, order: Seq<usize>) -> Seq<(FrameId, Camera)> {
    order.map_values(|i: usize| (views[i as int].frame_id, views[i as int].camera))
}

/// Whether the update moves exactly the splats of a frame that got a pose.
spec fn moves_a_frame(state: TrainerState, poses: Seq<NewPose>, update: PoseUpdate) -> bool {
    exists|j: int|
        0 <= j < poses.len() && state.corresponding_splats.dom().contains((#[trigger] poses[j]).0) && (
        update.start,
        update.end,
    ) == state.corresponding_splats[poses[j].0]
}

proof fn lemma_updates_move_frames(
    state: TrainerState,
    poses: Seq<NewPose>,
    motion: spec_fn(Camera, [u32; 3], [u32; 4]) -> Motion,
)
    ensures
        forall|k: int|
            0 <= k < splat_updates(state, poses, motion).len() ==> moves_a_frame(
                state,
                poses,
                #[trigger] splat_updates(state, poses, motion)[k],
            ),
    decreases poses.len(),
{
    if poses.len() > 0 {
        let rest = poses.drop_last();
        lemma_updates_move_frames(state, rest, motion);
        let all = splat_updates(state, poses, motion);
        let before = splat_updates(state, rest, motion);
        assert forall|k: int| 0 <= k < all.len() implies moves_a_frame(state, poses, #[trigger] all[k]) by {
            if k < before.len() {
                assert(moves_a_frame(state, rest, before[k]));
                let j = choose|j: int|
                    0 <= j < rest.len() && state.corresponding_splats.dom().contains((#[trigger] rest[j]).0) && (
                    before[k].start,
                    before[k].end,
                ) == state.corresponding_splats[rest[j].0];
                assert(poses[j] == rest[j]);
            } else {
                assert(poses[poses.len() - 1] == poses.last());
            }
        }
    }
}

/// When frames get new poses, the splats of every other frame stay as they
/// are.
pub proof fn lemma_frames_move_alone(
    state: TrainerState,
    poses: Seq<NewPose>,
    motion: spec_fn(Camera, [u32; 3], [u32; 4]) -> Motion,
    data: Seq<u32>,
    turn: spec_fn(PoseUpdate, SplatPose) -> SplatPose,
    f: FrameId,
    k: int,
)
    requires
        state.wf(),
        data.len() == splat_count(state.splats) * ROW,
        state.corresponding_splats.dom().contains(f),
        forall|j: int| 0 <= j < poses.len() ==> (#[trigger] poses[j]).0 != f,
        0 <= k,
        state.corresponding_splats[f].0 <= k / 10 < state.corresponding_splats[f].1,
    ensures
        moved(data, splat_updates(state, poses, motion), turn)[k] == data[k],
{
    let updates = splat_updates(state, poses, motion);
    lemma_updates_move_frames(state, poses, motion);
    assert forall|i: int| 0 <= i < updates.len() implies in_rows(#[trigger] updates[i], data.len()) && !(
    updates[i].start <= k / 10 < updates[i].end) by {
        assert(moves_a_frame(state, poses, updates[i]));
        let j = choose|j: int|
            0 <= j < poses.len() && state.corresponding_splats.dom().contains((#[trigger] poses[j]).0) && (
            updates[i].start,
            updates[i].end,
        ) == state.corresponding_splats[poses[j].0];
        let g = poses[j].0;
        assert(state.corresponding_splats.dom().contains(g) && state.corresponding_splats.dom().contains(f));
        assert(updates[i].end * ROW <= splat_count(state.splats) * ROW) by (nonlinear_arith)
            requires
                updates[i].end <= splat_count(state.splats),
        ;
    }
    assert(!covered(updates, k / 10));
    lemma_moving_keeps_scales(data, updates, turn);
}

/// Whether a host view was added and got all its Gaussians: the new splats are
/// its own, every other frame keeps its splats, and there is no optimiser.
pub open spec fn hosted(before: TrainerState, after: TrainerState, f: FrameId) -> bool {
    &&& splat_count(before.splats) <= splat_count(after.splats)
    &&& after.corresponding_splats == before.corresponding_splats.insert(
        f,
        (splat_count(before.splats) as usize, splat_count(after.splats) as usize),
    )
    &&& !after.has_trainer
}

/// Adding a host view, growing splats for it, and finishing it gives it exactly
/// the splats that were not there before. `grown` lists the states from the one
/// with the view to the one before it is finished.
pub proof fn lemma_host_owns_its_splats(before: TrainerState, grown: Seq<TrainerState>, host: HostView)
    requires
        grown.len() > 0,
        grown[0].splats == before.splats,
        grown[0].corresponding_splats == before.corresponding_splats,
        forall|k: int| 0 < k < grown.len() ==> grows(grown[k - 1], #[trigger] grown[k]),
        host.view_index < grown[0].train_views.len(),
        host.splats_before == splat_count(before.splats),
    ensures
        hosted(
            before,
            grown.last().with_owned(host),
            grown[0].train_views[host.view_index as int].frame_id,
        ),
{
    lemma_growing_keeps(grown);
}

proof fn lemma_growing_keeps(grown: Seq<TrainerState>)
    requires
        grown.len() > 0,
        forall|k: int| 0 < k < grown.len() ==> grows(grown[k - 1], #[trigger] grown[k]),
    ensures
        grown.last().train_views == grown[0].train_views,
        grown.last().corresponding_splats == grown[0].corresponding_splats,
        splat_count(grown[0].splats) <= splat_count(grown.last().splats),
    decreases grown.len(),
{
    if grown.len() > 1 {
        let rest = grown.drop_last();
        assert forall|k: int| 0 < k < rest.len() implies grows(rest[k - 1], #[trigger] rest[k]) by {
            assert(grown[k] == rest[k]);
        }
        lemma_growing_keeps(rest);
        assert(grows(grown[grown.len() - 2], grown[grown.len() - 1]));
    }
}

/// Host views own adjacent ranges of splats that cover all of them: if a
/// trainer without splats gets host views of different frames, one after the
/// other, each owns the splats that came with it, and later ones leave that as
/// it is. `states` lists the trainer before the first and after each of them.
pub proof fn lemma_ranges_cover_all_splats(states: Seq<TrainerState>, frames: Seq<FrameId>)
    requires
        states.len() == frames.len() + 1,
        states[0].splats.is_none(),
        states[0].corresponding_splats == Map::<i64, (usize, usize)>::empty(),
        frames.no_duplicates(),
        forall|j: int| 0 <= j < frames.len() ==> hosted(states[j], states[j + 1], #[trigger] frames[j]),
    ensures
        forall|f: i64| #[trigger]
            states.last().corresponding_splats.dom().contains(f) <==> frames.contains(f),
        forall|j: int|
            0 <= j < frames.len() ==> states.last().corresponding_splats[#[trigger] frames[j]] == (
                splat_count(states[j].splats) as usize,
                splat_count(states[j + 1].splats) as usize,
            ),
        forall|row: int|
            0 <= row < splat_count(states.last().splats) ==> #[trigger] is_owned(states.last(), frames, row),
        frames.len() > 0 ==> !states.last().has_trainer,
    decreases frames.len(),
{
    let last = states.last();
    if frames.len() > 0 {
        let n = frames.len() - 1;
        let fewer = frames.drop_last();
        let earlier = states.drop_last();
        assert forall|j: int| 0 <= j < fewer.len() implies hosted(earlier[j], earlier[j + 1], #[trigger] fewer[j]) by {
            assert(fewer[j] == frames[j]);
        }
        assert(earlier[0] == states[0]);
        lemma_ranges_cover_all_splats(earlier, fewer);
        let middle = states[n];
        assert(earlier.last() == middle);
        assert(hosted(middle, last, frames[n]));
        assert forall|f: i64| #[trigger] last.corresponding_splats.dom().contains(f) <==> frames.contains(f) by {
            if frames.contains(f) && f != frames[n] {
                let j = frames.index_of(f);
                assert(fewer[j] == f);
            }
            if fewer.contains(f) {
                let j = fewer.index_of(f);
                assert(frames[j] == f);
            }
        }
        assert forall|j: int| 0 <= j < frames.len() implies last.corresponding_splats[#[trigger] frames[j]] == (
            splat_count(states[j].splats) as usize,
            splat_count(states[j + 1].splats) as usize,
        ) by {
            if j < n {
                assert(fewer[j] == frames[j]);
                assert(frames[j] != frames[n]);
                assert(earlier[j] == states[j] && earlier[j + 1] == states[j + 1]);
            }
        }
        assert forall|row: int| 0 <= row < splat_count(last.splats) implies #[trigger] is_owned(last, frames, row) by {
            if row < splat_count(middle.splats) {
                assert(is_owned(middle, fewer, row));
                let j = choose|j: int| 0 <= j < fewer.len() && owns(middle, #[trigger] fewer[j], row);
                assert(frames[j] == fewer[j]);
                assert(frames[j] != frames[n]);
                assert(owns(last, frames[j], row));
            } else {
                assert(owns(last, frames[n], row));
            }
        }
    }
}

/// Whether the splat belongs to the frame.
pub open spec fn owns(state: TrainerState, f: FrameId, row: int) -> bool {
    &&& state.corresponding_splats.dom().contains(f)
    &&& state.corresponding_splats[f].0 <= row < state.corresponding_splats[f].1
}

/// Whether the splat belongs to one of the frames.
pub open spec fn is_owned(state: TrainerState, frames: Seq<FrameId>, row: int) -> bool {
    exists|j: int| 0 <= j < frames.len() && owns(state, #[trigger] frames[j], row)
}

/// Exported poses are those of all training views, by frame.
pub proof fn lemma_poses_are_exported_in_order(views: Seq<ViewData>, order: Seq<usize>)
    requires
        views.len() <= usize::MAX,
        is_order(order, frame_ids(views), views.len()),
    ensures
        poses_in_order(views, order).len() == views.len(),
        forall|p: int, q: int|
            0 <= p < q < views.len() ==> (#[trigger] poses_in_order(views, order)[p]).0 <= (#[trigger] poses_in_order(
                views,
                order,
            )[q]).0,
        forall|i: int|
            0 <= i < views.len() ==> poses_in_order(views, order).contains(
                ((#[trigger] views[i]).frame_id, views[i].camera),
            ),
{
    let poses = poses_in_order(views, order);
    assert forall|p: int, q: int| 0 <= p < q < views.len() implies (#[trigger] poses[p]).0 <= (#[trigger] poses[q]).0 by {
        lemma_order_is_stable(order, frame_ids(views), views.len(), p, q);
    }
    assert forall|i: int| 0 <= i < views.len() implies poses.contains(
        ((#[trigger] views[i]).frame_id, views[i].camera),
    ) by {
        lemma_order_is_complete(order, frame_ids(views), views.len(), i as usize);
        let p = choose|p: int| 0 <= p < order.len() && order[p] == i as usize;
        assert(poses[p] == (views[i].frame_id, views[i].camera));
    }
}

/// A pose moves the camera of its frame and nothing else of any view. A pose of
/// an unknown frame is passed over.
pub proof fn lemma_poses_move_their_own_camera(state: TrainerState, poses: Seq<NewPose>, next: NewPose, i: int)
    requires
        state.wf(),
        0 <= i < state.train_views.len(),
    ensures
        reposed_views(state, Seq::empty()) == state.train_views,
        reposed_views(state, poses.push(next)).len() == state.train_views.len(),
        ({
            let before = reposed_views(state, poses)[i];
            let after = reposed_views(state, poses.push(next))[i];
            if state.train_index.dom().contains(next.0) && state.train_index[next.0] == i {
                &&& after.camera.position == next.1
                &&& after.camera.rotation == next.2
                &&& after.camera.fov_x == before.camera.fov_x
                &&& after.camera.fov_y == before.camera.fov_y
                &&& after.camera.center_uv == before.camera.center_uv
                &&& after.frame_id == before.frame_id
                &&& after.image == before.image
                &&& after.depth == before.depth
                &&& after.is_eval == before.is_eval
                &&& after.is_host_frame == before.is_host_frame
            } else {
                after == before
            }
        }),
{
    assert(poses.push(next).drop_last() =~= poses);
    lemma_reposing_keeps_views(state, poses);
    lemma_reposing_keeps_views(state, poses.push(next));
    if state.train_index.dom().contains(next.0) {
        assert(state.train_index[next.0] < state.train_views.len());
    }
}

/// A pose of a frame that owns splats moves exactly these, by the motion from
/// where its camera is by then to the new pose. Any other pose moves none.
pub proof fn lemma_splats_follow_their_camera(
    state: TrainerState,
    poses: Seq<NewPose>,
    next: NewPose,
    motion: spec_fn(Camera, [u32; 3], [u32; 4]) -> Motion,
)
    requires
        state.wf(),
    ensures
        splat_updates(state, Seq::empty(), motion) == Seq::<PoseUpdate>::empty(),
        ({
            let before = splat_updates(state, poses, motion);
            let after = splat_updates(state, poses.push(next), motion);
            if state.train_index.dom().contains(next.0) && state.corresponding_splats.dom().contains(next.0) {
                let camera = reposed_views(state, poses)[state.train_index[next.0] as int].camera;
                let update = after[before.len() as int];
                &&& after.len() == before.len() + 1
                &&& after.take(before.len() as int) == before
                &&& (update.translation, update.rotation) == motion(camera, next.1, next.2)
                &&& (update.start, update.end) == state.corresponding_splats[next.0]
            } else {
                after == before
            }
        }),
{
    assert(poses.push(next).drop_last() =~= poses);
    let before = splat_updates(state, poses, motion);
    let after = splat_updates(state, poses.push(next), motion);
    if state.train_index.dom().contains(next.0) && state.corresponding_splats.dom().contains(next.0) {
        assert(after.take(before.len() as int) =~= before);
    }
}

/// The splats of a host frame whose camera is moved once follow it: each row of
/// them is turned by the motion from the old pose to the new one, and no other
/// row is touched.
pub proof fn lemma_moved_frame_takes_its_splats_along(
    state: TrainerState,
    pose: NewPose,
    motion: spec_fn(Camera, [u32; 3], [u32; 4]) -> Motion,
    data: Seq<u32>,
    turn: spec_fn(PoseUpdate, SplatPose) -> SplatPose,
    row: int,
    seen: SplatPose,
)
    requires
        state.wf(),
        data.len() == splat_count(state.splats) * 10,
        state.train_index.dom().contains(pose.0),
        state.corresponding_splats.dom().contains(pose.0),
        0 <= row < splat_count(state.splats),
        seen.mean@ == seq![data[10 * row], data[10 * row + 1], data[10 * row + 2]],
        seen.rotation@ == seq![data[10 * row + 4], data[10 * row + 5], data[10 * row + 6], data[10 * row + 3]],
    ensures
        ({
            let camera = state.train_views[state.train_index[pose.0] as int].camera;
            let (start, end) = state.corresponding_splats[pose.0];
            let (translation, rotation) = motion(camera, pose.1, pose.2);
            let turned = turn(PoseUpdate { translation, rotation, start, end }, seen);
            let after = moved(data, splat_updates(state, seq![pose], motion), turn);
            &&& after.len() == data.len()
            &&& start <= row < end ==> {
                &&& after[10 * row] == turned.mean@[0]
                &&& after[10 * row + 1] == turned.mean@[1]
                &&& after[10 * row + 2] == turned.mean@[2]
                &&& after[10 * row + 3] == turned.rotation@[3]
                &&& after[10 * row + 4] == turned.rotation@[0]
                &&& after[10 * row + 5] == turned.rotation@[1]
                &&& after[10 * row + 6] == turned.rotation@[2]
            }
            &&& !(start <= row < end) ==> forall|k: int| 10 * row <= k < 10 * row + 10 ==> #[trigger] after[k] == data[k]
        }),
{
    let none = Seq::<NewPose>::empty();
    lemma_splats_follow_their_camera(state, none, pose, motion);
    assert(none.push(pose) =~= seq![pose]);
    let (start, end) = state.corresponding_splats[pose.0];
    let camera = state.train_views[state.train_index[pose.0] as int].camera;
    let (translation, rotation) = motion(camera, pose.1, pose.2);
    let update = PoseUpdate { translation, rotation, start, end };
    let updates = splat_updates(state, seq![pose], motion);
    assert(updates =~= Seq::<PoseUpdate>::empty().push(update));
    assert(moved(data, Seq::<PoseUpdate>::empty(), turn) == data);
    lemma_updates_move_in_turn(data, Seq::empty(), update, turn, row, seen);
}

/// New splats describe their points: one for each, in their order, with the
/// mean, colour and opacity that it is to have.
pub proof fn lemma_new_splats_describe_points(
    splats: NewSplats,
    points: Seq<ProjectedPixel>,
    log_scales: Option<Seq<u32>>,
    raw_opacity: u32,
    config: IncrementalProcessConfig,
    i: int,
    axis: int,
)
    requires
        splats.describes(points, log_scales, raw_opacity, config),
        0 <= i < points.len(),
        0 <= axis < 3,
    ensures
        splats.means@.len() == 3 * points.len(),
        splats.means@[3 * i + axis] == points[i].mean[axis],
        splats.sh_coeffs@.len() == 3 * points.len(),
        splats.sh_coeffs@[3 * i + axis] == points[i].color,
        splats.raw_opacities@.len() == points.len(),
        splats.raw_opacities@[i] == raw_opacity,
        splats.log_scales.is_some() == log_scales.is_some(),
        log_scales.is_some() ==> splats.log_scales->0@ == log_scales->0,
        splats.sh_degree == config.sh_degree,
        splats.render_mode == config.render_mode,
{
    lemma_packing_can_be_read_back(points, i, axis);
}

/// More splats are counted, their optimiser is gone, and nothing else of a
/// trainer changes.
pub proof fn lemma_new_splats_are_counted(state: TrainerState, n: nat)
    requires
        splat_count(state.splats) + n <= u32::MAX,
    ensures
        ({
            let after = state.with_more_splats(n);
            &&& after.splats.is_some()
            &&& after.splats->0.num_splats == n + (match state.splats {
                Some(info) => info.num_splats as nat,
                None => 0,
            })
            &&& after.splats->0.sh_degree == state.config.sh_degree
            &&& !after.has_trainer
            &&& after == (TrainerState { splats: after.splats, has_trainer: false, ..state })
        }),
{
}

/// What adding splats in free cells does, pixel by pixel. The pixels with depth
/// become points, those that can be placed become splats, with scales, and are
/// marked; without any nothing happens.
pub proof fn lemma_free_cells_get_splats(
    before: TrainerState,
    host: HostView,
    grid: GridState,
    raw_opacity: u32,
    projection: spec_fn(usize) -> Projection,
    close: spec_fn([u32; 3], [u32; 3]) -> bool,
    new_splats: Option<NewSplats>,
    host_after: HostView,
    after: TrainerState,
)
    requires
        adds_in_free_cells(before, host, grid, raw_opacity, projection, close, new_splats, host_after, after),
        host.wf(before),
        splat_count(before.splats) + host.added@.len() <= u32::MAX,
    ensures
        ({
            let depth = before.train_views[host.view_index as int].depth->0@;
            let pixels = picked(host.added@.len(), |i: usize| !at_most32(depth[i as int], 0x3C23_D70A));
            let kept = placed(grid, projected(pixels, projection), close);
            &&& new_splats.is_some() == (kept.len() > 0)
            &&& kept.len() == 0 ==> after == before
            &&& kept.len() > 0 ==> {
                &&& after.splats.is_some()
                &&& after.splats->0.num_splats == splat_count(before.splats) + kept.len()
                &&& !after.has_trainer
                &&& new_splats->0.means@.len() == 3 * kept.len()
                &&& new_splats->0.raw_opacities@.len() == kept.len()
                &&& new_splats->0.log_scales.is_some()
                &&& forall|i: int, axis: int|
                    #![trigger kept[i].mean[axis]]
                    0 <= i < kept.len() && 0 <= axis < 3 ==> {
                        &&& new_splats->0.means@[3 * i + axis] == kept[i].mean[axis]
                        &&& new_splats->0.sh_coeffs@[3 * i + axis] == kept[i].color
                        &&& new_splats->0.log_scales->0@[3 * i + axis] == kept[i].log_scale
                        &&& new_splats->0.raw_opacities@[i] == raw_opacity
                    }
            }
            &&& host_after.added@.len() == host.added@.len()
            &&& forall|i: int|
                0 <= i < host.added@.len() ==> #[trigger] host_after.added@[i] == (host.added@[i] || pixels_of(
                    kept,
                ).contains(i as usize))
            &&& keeps_distance(grid.means, kept, close)
        }),
{
    let depth = before.depth_of(host.view_index);
    let ours = |i: usize| has_depth(depth[i as int]);
    let plain = |i: usize| !at_most32(depth[i as int], 0x3C23_D70A);
    assert(depth_pixels(before, host) == picked(host.added@.len(), ours));
    lemma_picked_agree(host.added@.len(), ours, plain);
    let pixels = picked(host.added@.len(), plain);
    lemma_picked(host.added@.len(), plain);
    let points = projected(pixels, projection);
    let kept = placed(grid, points, close);
    lemma_one_point_per_cell(grid, points, close);
    lemma_points_keep_their_distance(grid, points, close);
    assert forall|i: int, axis: int|
        #![trigger kept[i].mean[axis]]
        0 <= i < kept.len() && 0 <= axis < 3 implies {
        &&& new_splats->0.means@[3 * i + axis] == kept[i].mean[axis]
        &&& new_splats->0.sh_coeffs@[3 * i + axis] == kept[i].color
        &&& new_splats->0.log_scales->0@[3 * i + axis] == kept[i].log_scale
        &&& new_splats->0.raw_opacities@[i] == raw_opacity
    } by {
        lemma_packing_can_be_read_back(kept, i, axis);
    }
}

/// What adding splats on a grid does, pixel by pixel: those with depth in every
/// n-th column of every n-th row become splats and are marked. The scales come
/// from the depth unless the neighbours decide.
pub proof fn lemma_grid_pixels_get_splats(
    before: TrainerState,
    host: HostView,
    raw_opacity: u32,
    projection: spec_fn(usize) -> Projection,
    new_splats: NewSplats,
    host_after: HostView,
    after: TrainerState,
    u: int,
    v: int,
)
    requires
        adds_on_grid(before, host, host_after, after),
        describes_grid(before, host, raw_opacity, projection, new_splats),
        host.wf(before),
        before.config.gaussians_init_depth_stride > 0,
        splat_count(before.splats) + host.added@.len() <= u32::MAX,
        host.added@.len() <= usize::MAX,
        0 <= u < before.train_views[host.view_index as int].image.width,
        0 <= v < before.train_views[host.view_index as int].image.height,
    ensures
        ({
            let view = before.train_views[host.view_index as int];
            let stride = before.config.gaussians_init_depth_stride as int;
            let idx = v * view.image.width + u;
            let n = splat_count(after.splats) - splat_count(before.splats);
            &&& 0 <= idx < host.added@.len()
            &&& host_after.added@[idx] == (host.added@[idx] || (!at_most32(view.depth->0@[idx], 0x3C23_D70A) && u % stride
                == 0 && v % stride == 0))
            &&& !after.has_trainer
            &&& n >= 0
            &&& new_splats.means@.len() == 3 * n
            &&& new_splats.sh_coeffs@.len() == 3 * n
            &&& new_splats.raw_opacities@.len() == n
            &&& new_splats.log_scales.is_some() == !before.config.init_scales_with_knn
            &&& !at_most32(view.depth->0@[idx], 0x3C23_D70A) && u % stride == 0 && v % stride == 0 ==> exists|k: int|
                #![trigger new_splats.raw_opacities@[k]]
                {
                    &&& 0 <= k < n
                    &&& new_splats.means@[3 * k] == projection(idx as usize).mean@[0]
                    &&& new_splats.means@[3 * k + 1] == projection(idx as usize).mean@[1]
                    &&& new_splats.means@[3 * k + 2] == projection(idx as usize).mean@[2]
                    &&& new_splats.sh_coeffs@[3 * k] == projection(idx as usize).color
                    &&& new_splats.raw_opacities@[k] == raw_opacity
                    &&& new_splats.log_scales.is_some() ==> new_splats.log_scales->0@[3 * k] == projection(
                        idx as usize,
                    ).log_scale
                }
        }),
{
    let view = before.train_views[host.view_index as int];
    let (w, h) = (view.image.width as int, view.image.height as int);
    let stride = before.config.gaussians_init_depth_stride as int;
    let depth = before.depth_of(host.view_index);
    let idx = v * w + u;
    lemma_grid_is_regular(depth, w, h, stride, u, v);
    let pred = on_strided_grid(depth, w, stride);
    lemma_picked((w * h) as nat, pred);
    let pixels = grid_pixels(before, host);
    let points = projected(pixels, projection);
    if pixels.contains(idx as usize) {
        let k = pixels.index_of(idx as usize);
        lemma_packing_can_be_read_back(points, k, 0);
        lemma_packing_can_be_read_back(points, k, 1);
        lemma_packing_can_be_read_back(points, k, 2);
        assert(new_splats.raw_opacities@[k] == raw_opacity);
    }
}

/// Drawing starts with the pixels that densification may take and that weigh
/// something, each with its weight. As many are wanted as asked for, or all if
/// those are fewer; with none wanted there is no drawing.
pub proof fn lemma_drawing_starts_with_all_candidates(
    state: TrainerState,
    host: HostView,
    ssim: Seq<u32>,
    num_samples: usize,
    weight: spec_fn(u32) -> u32,
    drawing: Option<Drawing>,
    idx: usize,
)
    requires
        starts_drawing(state, host, ssim, num_samples, weight, drawing),
        idx < host.added@.len() <= usize::MAX,
    ensures
        ({
            let depth = state.train_views[host.view_index as int].depth->0@;
            let threshold = state.config.train_config.densify_ssim_threshold;
            let eligible = !host.added@[idx as int] && !less32(depth[idx as int], 0x3DCC_CCCD) && !at_most32(
                threshold,
                ssim[idx as int],
            ) && less32(0, weight(ssim[idx as int]));
            &&& drawing.is_some() ==> {
                let sampler = drawing->0.sampler;
                &&& sampler.sampled().len() == 0
                &&& sampler.start() == host.added@
                &&& sampler.wanted() > 0
                &&& sampler.wanted() == vstd::math::min(num_samples as int, sampler.candidates().len() as int)
                &&& sampler.candidates().len() == sampler.weights().len()
                &&& sampler.candidates().contains(idx) <==> eligible
                &&& forall|j: int|
                    0 <= j < sampler.candidates().len() ==> #[trigger] sampler.weights()[j] == weight(
                        ssim[sampler.candidates()[j] as int],
                    )
            }
            &&& drawing.is_none() && num_samples > 0 ==> !eligible
            &&& num_samples == 0 ==> drawing.is_none()
        }),
{
    let depth = state.depth_of(host.view_index);
    let threshold = state.config.train_config.densify_ssim_threshold;
    let n = host.added@.len();
    let pred = densifiable(host.added@, depth, ssim, threshold);
    let candidates = picked(n, pred);
    let weights = candidates.map_values(|idx: usize| weight(ssim[idx as int]));
    lemma_picked(n, pred);
    lemma_pixels_qualify(host.added@, depth, ssim, threshold, weights, n, idx);
    lemma_candidates_keep_their_weights(candidates, weights);
    let above = |k: usize| less32(0, weights[k as int]);
    let places = picked(weights.len(), above);
    lemma_picked(weights.len(), above);
    let drawn = positive_candidates(candidates, weights);
    let eligible = !host.added@[idx as int] && !less32(depth[idx as int], 0x3DCC_CCCD) && !at_most32(
        threshold,
        ssim[idx as int],
    ) && less32(0, weight(ssim[idx as int]));
    if eligible {
        let k = candidates.index_of(idx);
        assert(weights[k] == weight(ssim[idx as int]));
        assert(above(k as usize));
        assert(places.contains(k as usize));
        let j = places.index_of(k as usize);
        assert(drawn[j] == candidates[places[j] as int]);
        assert(drawn[j] == idx);
        assert(drawn.contains(idx));
    }
    if drawn.contains(idx) {
        let j = drawn.index_of(idx);
        let k = places[j] as int;
        assert(places.contains(places[j]));
        assert(above(places[j]));
        assert(drawn[j] == candidates[k]);
        assert(candidates[k] == idx);
        assert(candidates.contains(idx));
        assert(weights[k] == weight(ssim[idx as int]));
    }
    assert forall|j: int| 0 <= j < drawn.len() implies #[trigger] positive_weights(weights)[j] == weight(
        ssim[drawn[j] as int],
    ) by {
        let k = places[j] as int;
        assert(drawn[j] == candidates[k]);
    }
}

/// Every message is answered by what it asks for; without a message there is
/// time to train, and without a channel there is nothing more to do.
pub proof fn lemma_messages_get_what_they_ask_for(train_views: bool)
    ensures
        action_for(
            Received::Message(IncrementalTrainMessage::ComputeUnreconstructedAreaAndSSIM),
            train_views,
        ) is ComputeAreaAndSsim,
        action_for(Received::Message(IncrementalTrainMessage::NewView), train_views) is AddView,
        action_for(Received::Message(IncrementalTrainMessage::ExternalPoseUpdate), train_views) is UpdatePoses,
        action_for(Received::Message(IncrementalTrainMessage::Train), train_views) is Train,
        action_for(Received::Message(IncrementalTrainMessage::Eval), train_views) == (LoopAction::Eval { train_views }),
        action_for(Received::Message(IncrementalTrainMessage::Stop), train_views) is Stop,
        action_for(Received::Empty, train_views) is Train,
        action_for(Received::Disconnected, train_views) is Stop,
{
}

/// What viewers hear of splats: that loading is done if they have not heard it,
/// the splats with the up axis, and last where the newest view is. Without
/// splats or viewers nothing is said.
pub proof fn lemma_viewers_hear_of_splats(state: TrainerState)
    ensures
        state.splats.is_none() || state.viewers.is_none() ==> state.splat_messages().len() == 0,
        state.splats.is_some() && state.viewers.is_some() ==> {
            let messages = state.splat_messages();
            let first: int = if state.viewers->0 {
                0
            } else {
                1
            };
            &&& messages.len() >= first + 1
            &&& !state.viewers->0 ==> messages[0] is DoneLoading
            &&& messages[first] matches ProcessMessage::SplatsUpdated { up_axis, num_splats, sh_degree, .. } && {
                &&& up_axis == state.up_axis
                &&& num_splats == state.splats->0.num_splats
                &&& sh_degree == state.splats->0.sh_degree
            }
            &&& state.newest_frame.is_none() ==> messages.len() == first + 1
            &&& state.newest_frame.is_some() && state.train_index.dom().contains(state.newest_frame->0) ==> {
                &&& messages.len() == first + 2
                &&& messages[first + 1] matches ProcessMessage::FocusCamera { camera } && camera
                    == state.train_views[state.train_index[state.newest_frame->0] as int].camera
            }
        },
{
}

/// A list that shows views shows each by the number of its frame and from its
/// camera, in their order.
pub proof fn lemma_views_are_shown(list: Seq<Arc<SceneView>>, views: Seq<ViewData>, i: int)
    requires
        shows(list, views),
        0 <= i < views.len(),
    ensures
        list.len() == views.len(),
        list[i].image_name@ == image_name(views[i].frame_id as int),
        list[i].camera == views[i].camera,
        list[i].files.is_none(),
{
}

/// A finished host view owns the splats that came since it was added, and no
/// other frame gains or loses any.
pub proof fn lemma_finished_view_owns_the_new_splats(state: TrainerState, host: HostView, other: FrameId)
    requires
        host.view_index < state.train_views.len(),
        splat_count(state.splats) <= usize::MAX,
    ensures
        ({
            let f = state.train_views[host.view_index as int].frame_id;
            let after = state.with_owned(host);
            &&& after.corresponding_splats.dom().contains(f)
            &&& after.corresponding_splats[f].0 == host.splats_before
            &&& after.corresponding_splats[f].1 == splat_count(state.splats)
            &&& other != f ==> after.corresponding_splats.dom().contains(other)
                == state.corresponding_splats.dom().contains(other)
            &&& other != f && state.corresponding_splats.dom().contains(other) ==> after.corresponding_splats[other]
                == state.corresponding_splats[other]
            &&& !after.has_trainer
            &&& after.splats == state.splats && after.train_views == state.train_views && after.rng == state.rng
        }),
{
}

/// The generator for drawing comes from the next bytes of the trainer's own,
/// which moves on; nothing else changes.
pub proof fn lemma_drawing_takes_the_next_bytes(before: TrainerState, drawing: Drawing, after: TrainerState)
    requires
        forks(before, drawing, after),
    ensures
        (drawing.seed@, after.rng) == filled_bytes(before.rng),
        after.splats == before.splats,
        after.train_views == before.train_views,
        after.corresponding_splats == before.corresponding_splats,
        after.has_trainer == before.has_trainer,
{
}

/// A function that always gives what `weight` says, and no other, is one that
/// computes it.
pub proof fn lemma_computes_weight<F: Fn(u32) -> u32>(
    f: F,
    weight: spec_fn(u32) -> u32,
)
    ensures
        computes_weight(f, weight) <==> forall|ssim: u32, out: u32| #[trigger]
            call_ensures(f, (ssim,), out) ==> out == weight(ssim),
{
}

/// A function that always gives what `motion` says, and no other, is one that
/// computes it.
pub proof fn lemma_computes_motion<F: Fn(Camera, [u32; 3], [u32; 4]) -> Motion>(
    f: F,
    motion: spec_fn(Camera, [u32; 3], [u32; 4]) -> Motion,
)
    ensures
        computes_motion(f, motion) <==> forall|camera: Camera, position: [u32; 3], rotation: [u32; 4], out: Motion| #[trigger]
            call_ensures(f, (camera, position, rotation), out) ==> out == motion(camera, position, rotation),
{
}

/// A view can get Gaussians if it has a depth for each of its pixels.
pub proof fn lemma_views_with_depth_can_host(view: ViewData)
    requires
        view.image.bytes@.len() == 4 * (view.image.width * view.image.height),
        view.depth.is_some(),
        view.depth->0@.len() >= view.image.width * view.image.height,
    ensures
        view.can_host(),
{
}

} // verus!
