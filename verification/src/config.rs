//! Settings. Numbers that are not whole are bit patterns: binary32 in `u32`,
//! binary64 in `u64`.
use crate::context;
use crate::database::AlphaMode;
use vstd::prelude::*;

verus! {

/// How splats are rasterised.
#[derive(Clone, Copy, Debug, PartialEq, Eq)]
pub enum SplatRenderMode {
    Default,
    Mip,
}

/// What the splats of a model look like.
#[derive(Clone, Debug)]
pub struct ModelConfig {
    /// SH degree of splats.
    pub sh_degree: u32,
}

/// The highest SH degree that splats can have.
pub const MAX_SH_DEGREE: u32 = 4;

impl ModelConfig {
    /// A model of the given SH degree, if splats can have it.
    pub fn with_sh_degree(sh_degree: u32) -> (config: Option<ModelConfig>)
        ensures
            config == (if sh_degree <= MAX_SH_DEGREE {
                Some(ModelConfig { sh_degree })
            } else {
                None
            }),
            config.is_some() == (sh_degree <= 4),
    {
        if sh_degree <= MAX_SH_DEGREE {
            Some(ModelConfig { sh_degree })
        } else {
            None
        }
    }
}

/// How a dataset is loaded.
#[derive(Clone, Debug)]
pub struct LoadDataseConfig {
    /// Max nr. of frames of dataset to load
    pub max_frames: Option<usize>,
    /// Max resolution of images to load.
    pub max_resolution: u32,
    /// Create an eval dataset by selecting every nth image
    pub eval_split_every: Option<usize>,
    /// Load only every nth frame
    pub subsample_frames: Option<u32>,
    /// Load only every nth point from the initial sfm data
    pub subsample_points: Option<u32>,
    /// Whether to interpret an alpha channel (or masks) as transparency or masking.
    pub alpha_mode: Option<AlphaMode>,
    /// Whether to rescale the dataset to suite the depth map scale
    pub estimate_metric_scale: bool,
}

/// How new Gaussians are added for freshly registered frames.
#[derive(Clone, Copy, Debug, PartialEq, Eq)]
pub enum GaussianAddingMode {
    OccupancyGrid,
    StridedDepth,
}

/// How the scale of a Gaussian injected during SSIM densification is chosen.
#[derive(Clone, Copy, Debug, PartialEq, Eq)]
pub enum DensifyScaleMode {
    Constant,
    Knn,
}

impl Default for DensifyScaleMode {
    fn default() -> (mode: Self)
        ensures
            mode == DensifyScaleMode::Constant,
    {
        DensifyScaleMode::Constant
    }
}

/// The settings of an optimiser run that the training decides on.
#[derive(Clone, Copy, Debug)]
pub struct TrainConfig {
    pub total_train_iters: u32,
    pub refine_every: u32,
    pub render_mode: Option<SplatRenderMode>,
    pub lr_mean: u64,
    pub lr_mean_end: u64,
    pub lr_opac: u64,
    pub lr_opac_end: u64,
    pub lr_scale: u64,
    pub lr_scale_end: u64,
    pub ssim_weight: u32,
    pub anti_needle_loss_weight: u32,
    pub depth_loss_weight: u32,
    pub max_cov_scale: u32,
    pub max_cov_scale_loss_weight: u32,
    pub pose_opt: bool,
    pub lr_pose: u64,
    pub lr_pose_end: u64,
}

/// The render mode of an optimiser run, or the usual one.
pub fn render_mode_or_default(config: &TrainConfig) -> (mode: SplatRenderMode)
    ensures
        mode == (match config.render_mode {
            Some(mode) => mode,
            None => SplatRenderMode::Default,
        }),
{
    match config.render_mode {
        Some(mode) => mode,
        None => SplatRenderMode::Default,
    }
}

/// How a process is run as a whole.
#[derive(Clone, Copy, Debug)]
pub struct ProcessConfig {
    pub seed: u64,
    pub eval_every: u32,
}

/// All settings of a process that trains while frames come in.
#[derive(Clone)]
pub struct TrainStreamConfig {
    pub process_config: ProcessConfig,
    pub train_config: TrainConfig,
    pub model_config: ModelConfig,
    pub load_config: LoadDataseConfig,
    pub incremental_train_config: context::IncrementalTrainConfig,
}

impl TrainStreamConfig {
    /// The render mode, or the usual one.
    pub open spec fn render_mode(self) -> SplatRenderMode {
        match self.train_config.render_mode {
            Some(mode) => mode,
            None => SplatRenderMode::Default,
        }
    }
}

/// How the trainer trains.
#[derive(Clone)]
pub struct IncrementalTrainConfig {
    pub view_sampling_strategy: String,
    pub all_view_train_secs: u64,
    pub densify_at: u32,
    pub densify_max_samples: usize,
    pub densify_recip_weighting: bool,
    pub densify_ssim_threshold: u32,
    pub densify_scale_mode: DensifyScaleMode,
    pub densify_const_cov_scale: u32,
    pub densify_init_opacity: u32,
    pub single_view_train_steps: u32,
    pub single_view_lr_opac: u64,
    pub single_view_lr_opac_end: u64,
    pub single_view_lr_mean: u64,
    pub single_view_lr_mean_end: u64,
    pub single_view_lr_scale: u64,
    pub single_view_lr_scale_end: u64,
    pub ssim_weight: u32,
    pub anti_needle_loss_weight: u32,
    pub depth_loss_weight: u32,
    pub pose_opt: bool,
    pub lr_pose_opt: u64,
    pub max_cov_scale: u32,
    pub max_cov_scale_loss_weight: u32,
}

impl IncrementalTrainConfig {
    /// Every number is zero, every switch off, the strategy unnamed.
    pub open spec fn is_blank(self) -> bool {
        &&& self.view_sampling_strategy@ == Seq::<char>::empty()
        &&& self.all_view_train_secs == 0
        &&& self.densify_at == 0
        &&& self.densify_max_samples == 0
        &&& !self.densify_recip_weighting
        &&& self.densify_ssim_threshold == 0
        &&& self.densify_scale_mode == DensifyScaleMode::Constant
        &&& self.densify_const_cov_scale == 0
        &&& self.densify_init_opacity == 0
        &&& self.single_view_train_steps == 0
        &&& self.single_view_lr_opac == 0
        &&& self.single_view_lr_opac_end == 0
        &&& self.single_view_lr_mean == 0
        &&& self.single_view_lr_mean_end == 0
        &&& self.single_view_lr_scale == 0
        &&& self.single_view_lr_scale_end == 0
        &&& self.ssim_weight == 0
        &&& self.anti_needle_loss_weight == 0
        &&& self.depth_loss_weight == 0
        &&& !self.pose_opt
        &&& self.lr_pose_opt == 0
        &&& self.max_cov_scale == 0
        &&& self.max_cov_scale_loss_weight == 0
    }

    /// The settings for training on one new view: the learning rates and
    /// weights of single-view training in place of those of `base`.
    pub open spec fn burst(self, base: TrainConfig, render_mode: SplatRenderMode) -> TrainConfig {
        TrainConfig {
            total_train_iters: self.densify_at,
            render_mode: Some(render_mode),
            lr_mean: self.single_view_lr_mean,
            lr_mean_end: self.single_view_lr_mean_end,
            lr_opac: self.single_view_lr_opac,
            lr_opac_end: self.single_view_lr_opac_end,
            lr_scale: self.single_view_lr_scale,
            lr_scale_end: self.single_view_lr_scale_end,
            ssim_weight: self.ssim_weight,
            anti_needle_loss_weight: self.anti_needle_loss_weight,
            depth_loss_weight: self.depth_loss_weight,
            max_cov_scale: self.max_cov_scale,
            max_cov_scale_loss_weight: self.max_cov_scale_loss_weight,
            ..base
        }
    }

    /// The settings for training on all views. The means are not annealed, nor
    /// are the poses: each rate ends as it starts.
    pub open spec fn all_views(self, base: TrainConfig, lr_mean: u64) -> TrainConfig {
        TrainConfig {
            lr_mean,
            lr_mean_end: lr_mean,
            depth_loss_weight: self.depth_loss_weight,
            anti_needle_loss_weight: self.anti_needle_loss_weight,
            pose_opt: self.pose_opt,
            lr_pose: self.lr_pose_opt,
            lr_pose_end: self.lr_pose_opt,
            ..base
        }
    }

    /// The settings for training on one new view.
    pub fn burst_train_config(&self, base: TrainConfig, render_mode: SplatRenderMode) -> (config: TrainConfig)
        ensures
            config == self.burst(base, render_mode),
            config.total_train_iters == self.densify_at,
            config.render_mode == Some(render_mode),
            config.lr_mean == self.single_view_lr_mean,
            config.lr_mean_end == self.single_view_lr_mean_end,
            config.lr_opac == self.single_view_lr_opac,
            config.lr_opac_end == self.single_view_lr_opac_end,
            config.lr_scale == self.single_view_lr_scale,
            config.lr_scale_end == self.single_view_lr_scale_end,
            config.ssim_weight == self.ssim_weight,
            config.anti_needle_loss_weight == self.anti_needle_loss_weight,
            config.depth_loss_weight == self.depth_loss_weight,
            config.max_cov_scale == self.max_cov_scale,
            config.max_cov_scale_loss_weight == self.max_cov_scale_loss_weight,
            config.refine_every == base.refine_every,
            config.pose_opt == base.pose_opt,
            config.lr_pose == base.lr_pose,
            config.lr_pose_end == base.lr_pose_end,
    {
        let mut train = base;
        train.total_train_iters = self.densify_at;
        train.render_mode = Some(render_mode);
        train.lr_mean = self.single_view_lr_mean;
        train.lr_mean_end = self.single_view_lr_mean_end;
        train.lr_opac = self.single_view_lr_opac;
        train.lr_opac_end = self.single_view_lr_opac_end;
        train.lr_scale = self.single_view_lr_scale;
        train.lr_scale_end = self.single_view_lr_scale_end;
        train.ssim_weight = self.ssim_weight;
        train.anti_needle_loss_weight = self.anti_needle_loss_weight;
        train.depth_loss_weight = self.depth_loss_weight;
        train.max_cov_scale = self.max_cov_scale;
        train.max_cov_scale_loss_weight = self.max_cov_scale_loss_weight;
        train
    }

    /// The settings for training on all views, with the given rate for means.
    pub fn create_all_view_train_config(&self, base: TrainConfig, lr_mean: u64) -> (config: TrainConfig)
        ensures
            config == self.all_views(base, lr_mean),
            config.lr_mean == lr_mean,
            config.lr_mean_end == lr_mean,
            config.depth_loss_weight == self.depth_loss_weight,
            config.anti_needle_loss_weight == self.anti_needle_loss_weight,
            config.pose_opt == self.pose_opt,
            config.lr_pose == self.lr_pose_opt,
            config.lr_pose_end == self.lr_pose_opt,
            config.total_train_iters == base.total_train_iters,
            config.refine_every == base.refine_every,
            config.render_mode == base.render_mode,
            config.lr_opac == base.lr_opac,
            config.lr_opac_end == base.lr_opac_end,
            config.lr_scale == base.lr_scale,
            config.lr_scale_end == base.lr_scale_end,
            config.ssim_weight == base.ssim_weight,
            config.max_cov_scale == base.max_cov_scale,
            config.max_cov_scale_loss_weight == base.max_cov_scale_loss_weight,
    {
        let mut cfg = base;
        cfg.lr_mean = lr_mean;
        cfg.lr_mean_end = lr_mean;
        cfg.depth_loss_weight = self.depth_loss_weight;
        cfg.anti_needle_loss_weight = self.anti_needle_loss_weight;
        cfg.pose_opt = self.pose_opt;
        cfg.lr_pose = self.lr_pose_opt;
        cfg.lr_pose_end = self.lr_pose_opt;
        cfg
    }
}

impl Default for IncrementalTrainConfig {
    fn default() -> (config: Self)
        ensures
            config.is_blank(),
    {
        IncrementalTrainConfig {
            view_sampling_strategy: String::new(),
            all_view_train_secs: 0,
            densify_at: 0,
            densify_max_samples: 0,
            densify_recip_weighting: false,
            densify_ssim_threshold: 0,
            densify_scale_mode: DensifyScaleMode::Constant,
            densify_const_cov_scale: 0,
            densify_init_opacity: 0,
            single_view_train_steps: 0,
            single_view_lr_opac: 0,
            single_view_lr_opac_end: 0,
            single_view_lr_mean: 0,
            single_view_lr_mean_end: 0,
            single_view_lr_scale: 0,
            single_view_lr_scale_end: 0,
            ssim_weight: 0,
            anti_needle_loss_weight: 0,
            depth_loss_weight: 0,
            pose_opt: false,
            lr_pose_opt: 0,
            max_cov_scale: 0,
            max_cov_scale_loss_weight: 0,
        }
    }
}

/// How the trainer is run.
#[derive(Clone)]
pub struct IncrementalProcessConfig {
    pub seed: u64,
    pub eval_train_views: bool,
    pub export_every_secs: Option<u64>,
    pub export_ply_path: String,
    pub export_poses_path: String,
    pub export_meta_info_path: String,
    pub sh_degree: u32,
    pub render_mode: SplatRenderMode,
    /// Which method to use for adding new Gaussians for registered frames.
    pub landmark_add_mode: GaussianAddingMode,
    /// Min distance to other Gaussians for a landmark to be added
    pub occupancy_grid_size: u32,
    /// Scale factor multiplied to newly added landmarks
    pub cov_init_scale_factor: u32,
    pub init_scales_with_knn: bool,
    /// Opacity given to Gaussians on initialization
    pub cov_init_opacity: u32,
    pub gaussians_init_depth_stride: usize,
    pub train_config: IncrementalTrainConfig,
}

/// 0.04
pub const DEFAULT_GRID_SIZE: u32 = 0x3D23D70A;

/// 2.0
pub const DEFAULT_SCALE_FACTOR: u32 = 0x40000000;

/// 0.9
pub const DEFAULT_OPACITY: u32 = 0x3F666666;

impl Default for IncrementalProcessConfig {
    fn default() -> (config: Self)
        ensures
            config.seed == 42,
            !config.eval_train_views,
            config.export_every_secs.is_none(),
            config.export_ply_path@ == "./plys"@,
            config.export_poses_path@ == "./meta"@,
            config.export_meta_info_path@ == "./meta"@,
            config.sh_degree == 1,
            config.render_mode == SplatRenderMode::Default,
            config.landmark_add_mode == GaussianAddingMode::StridedDepth,
            config.occupancy_grid_size == DEFAULT_GRID_SIZE,
            config.cov_init_scale_factor == DEFAULT_SCALE_FACTOR,
            !config.init_scales_with_knn,
            config.cov_init_opacity == DEFAULT_OPACITY,
            config.gaussians_init_depth_stride == 32,
            config.train_config.is_blank(),
            config.occupancy_grid_size == 0x3D23_D70A,
            config.cov_init_scale_factor == 0x4000_0000,
            config.cov_init_opacity == 0x3F66_6666,
    {
        IncrementalProcessConfig {
            seed: 42,
            eval_train_views: false,
            export_every_secs: None,
            export_ply_path: "./plys".to_owned(),
            export_poses_path: "./meta".to_owned(),
            export_meta_info_path: "./meta".to_owned(),
            sh_degree: 1,
            render_mode: SplatRenderMode::Default,
            landmark_add_mode: GaussianAddingMode::StridedDepth,
            occupancy_grid_size: DEFAULT_GRID_SIZE,
            cov_init_scale_factor: DEFAULT_SCALE_FACTOR,
            init_scales_with_knn: false,
            cov_init_opacity: DEFAULT_OPACITY,
            gaussians_init_depth_stride: 32,
            train_config: IncrementalTrainConfig::default(),
        }
    }
}

/// The settings of the two kinds of training differ from the usual ones only in
/// what each of them replaces: training on one view leaves the pose rates alone,
/// training on all views leaves the rates of opacity and scale alone, and its
/// rates for means and poses end as they start.
pub proof fn lemma_training_replaces_its_own_settings(
    cfg: IncrementalTrainConfig,
    base: TrainConfig,
    render_mode: SplatRenderMode,
    lr_mean: u64,
)
    ensures
        ({
            let one = cfg.burst(base, render_mode);
            &&& one.total_train_iters == cfg.densify_at
            &&& one.render_mode == Some(render_mode)
            &&& one.lr_mean == cfg.single_view_lr_mean && one.lr_mean_end == cfg.single_view_lr_mean_end
            &&& one.lr_opac == cfg.single_view_lr_opac && one.lr_opac_end == cfg.single_view_lr_opac_end
            &&& one.lr_scale == cfg.single_view_lr_scale && one.lr_scale_end == cfg.single_view_lr_scale_end
            &&& one.ssim_weight == cfg.ssim_weight
            &&& one.anti_needle_loss_weight == cfg.anti_needle_loss_weight
            &&& one.depth_loss_weight == cfg.depth_loss_weight
            &&& one.max_cov_scale == cfg.max_cov_scale
            &&& one.max_cov_scale_loss_weight == cfg.max_cov_scale_loss_weight
            &&& one.refine_every == base.refine_every
            &&& one.pose_opt == base.pose_opt && one.lr_pose == base.lr_pose && one.lr_pose_end == base.lr_pose_end
        }),
        ({
            let all = cfg.all_views(base, lr_mean);
            &&& all.lr_mean == lr_mean && all.lr_mean_end == lr_mean
            &&& all.depth_loss_weight == cfg.depth_loss_weight
            &&& all.anti_needle_loss_weight == cfg.anti_needle_loss_weight
            &&& all.pose_opt == cfg.pose_opt && all.lr_pose == cfg.lr_pose_opt && all.lr_pose_end == cfg.lr_pose_opt
            &&& all.total_train_iters == base.total_train_iters
            &&& all.refine_every == base.refine_every
            &&& all.render_mode == base.render_mode
            &&& all.lr_opac == base.lr_opac && all.lr_opac_end == base.lr_opac_end
            &&& all.lr_scale == base.lr_scale && all.lr_scale_end == base.lr_scale_end
            &&& all.ssim_weight == base.ssim_weight
            &&& all.max_cov_scale == base.max_cov_scale
            &&& all.max_cov_scale_loss_weight == base.max_cov_scale_loss_weight
        }),
{
}

/// Blank settings train nothing: no time, no steps, no samples, no rates.
pub proof fn lemma_blank_settings(config: IncrementalTrainConfig)
    requires
        config.is_blank(),
    ensures
        config.view_sampling_strategy@.len() == 0,
        config.all_view_train_secs == 0 && config.densify_at == 0 && config.densify_max_samples == 0,
        !config.densify_recip_weighting && !config.pose_opt,
        config.densify_scale_mode == DensifyScaleMode::Constant,
        config.densify_ssim_threshold == 0 && config.densify_const_cov_scale == 0 && config.densify_init_opacity == 0,
        config.single_view_train_steps == 0,
        config.single_view_lr_opac == 0 && config.single_view_lr_opac_end == 0,
        config.single_view_lr_mean == 0 && config.single_view_lr_mean_end == 0,
        config.single_view_lr_scale == 0 && config.single_view_lr_scale_end == 0,
        config.ssim_weight == 0 && config.anti_needle_loss_weight == 0 && config.depth_loss_weight == 0,
        config.lr_pose_opt == 0 && config.max_cov_scale == 0 && config.max_cov_scale_loss_weight == 0,
{
}

} // verus!
