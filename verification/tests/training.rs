//! The trainer, the context and the stream.
use brush_incremental::bridge::MaskMismatch;
use brush_incremental::camera::Camera;
use brush_incremental::config::{
    DensifyScaleMode, GaussianAddingMode, IncrementalProcessConfig, IncrementalTrainConfig, LoadDataseConfig, ModelConfig,
    ProcessConfig, SplatRenderMode, TrainConfig, TrainStreamConfig,
};
use brush_incremental::context::{ContextConfig, DensifyConfig, Duties, Growth, IncrementalTrainContext};
use brush_incremental::database::{AlphaMode, ImageData, IncrementalDatabase, PoseData};
use brush_incremental::landmarks::{Occupant, Projection};
use brush_incremental::raster::RasterImage;
use brush_incremental::stream::{FrameDataError, NewTrainingData, TrainStream};
use brush_incremental::trainer::{
    IncrementalTrainMessage, IncrementalTrainer, LoopAction, Received, UpdateUiContext, ViewData, WHOLE_AREA,
    WORST_SSIM,
};
use brush_incremental::transforms::{move_splats, PoseOptimizer, PoseUpdate, SplatPose};
use brush_incremental::ui::{DataSource, ProcessMessage, SplatInfo};
use glam::{Quat, Vec3};
use rand::rngs::{SmallRng, StdRng};
use rand::{RngExt, SeedableRng};
use std::collections::HashMap;
use std::sync::Arc;

fn camera(x: f32) -> Camera {
    Camera {
        position: [x.to_bits(), 0, 0],
        rotation: [0, 0, 0, 1.0f32.to_bits()],
        fov_x: 1.0f64.to_bits(),
        fov_y: 1.0f64.to_bits(),
        center_uv: [0.5f32.to_bits(); 2],
    }
}

fn raster(w: u32, h: u32) -> Arc<RasterImage> {
    Arc::new(RasterImage { width: w, height: h, bytes: vec![100; (4 * w * h) as usize] })
}

fn view(frame_id: i64, depth: Option<Vec<f32>>, is_eval: bool) -> ViewData {
    let is_host_frame = depth.is_some();
    ViewData {
        frame_id,
        camera: camera(frame_id as f32),
        image: raster(2, 2),
        depth: depth.map(|d| Arc::new(d.iter().map(|v| v.to_bits()).collect())),
        is_eval,
        is_host_frame,
    }
}

fn at(idx: usize) -> Projection {
    Projection {
        cell: (idx as i32, 0, 0),
        mean: [idx as u32; 3],
        color: 7,
        log_scale: 9,
    }
}

/// A Gaussian in the cell, with a mean that is not near to anything.
fn far(cell: (i32, i32, i32)) -> Occupant {
    Occupant { cell, mean: [999; 3] }
}

fn apart(_: [u32; 3], _: [u32; 3]) -> bool {
    false
}

fn base() -> TrainConfig {
    TrainConfig {
        total_train_iters: 30000,
        refine_every: 200,
        render_mode: None,
        lr_mean: 1,
        lr_mean_end: 2,
        lr_opac: 3,
        lr_opac_end: 4,
        lr_scale: 5,
        lr_scale_end: 6,
        ssim_weight: 7,
        anti_needle_loss_weight: 8,
        depth_loss_weight: 9,
        max_cov_scale: 10,
        max_cov_scale_loss_weight: 11,
        pose_opt: false,
        lr_pose: 12,
        lr_pose_end: 13,
    }
}

fn config() -> IncrementalProcessConfig {
    let mut config = IncrementalProcessConfig::default();
    config.gaussians_init_depth_stride = 1;
    config.train_config.view_sampling_strategy = "random".to_owned();
    config.train_config.all_view_train_secs = 0.5f64.to_bits();
    config
}

fn trainer() -> IncrementalTrainer {
    IncrementalTrainer::new(config(), Some(UpdateUiContext::new()))
}

fn names(messages: &[ProcessMessage]) -> Vec<&'static str> {
    messages
        .iter()
        .map(|m| match m {
            ProcessMessage::NewProcess => "new",
            ProcessMessage::StartLoading { name, .. } => name,
            ProcessMessage::TrainConfig { .. } => "config",
            ProcessMessage::Dataset { .. } => "views",
            ProcessMessage::DoneLoading => "done",
            ProcessMessage::SplatsUpdated { .. } => "splats",
            ProcessMessage::FocusCamera { .. } => "focus",
            ProcessMessage::TrainStep { .. } => "step",
            ProcessMessage::RefineStep { .. } => "refine",
            ProcessMessage::EvalResult { .. } => "eval",
            ProcessMessage::NewImage { .. } => "image",
        })
        .collect()
}

/// The names of the views that a message lists: for training, for evaluation.
fn listed(message: &ProcessMessage) -> (Vec<String>, Vec<String>) {
    match message {
        ProcessMessage::Dataset { train_views, eval_views } => (
            train_views.iter().map(|v| v.image_name.clone()).collect(),
            eval_views.iter().map(|v| v.image_name.clone()).collect(),
        ),
        _ => panic!("not a list of views"),
    }
}

fn stream_config(sh_degree: u32, refine_every: u32, eval_every: u32) -> Arc<TrainStreamConfig> {
    let mut train_config = base();
    train_config.refine_every = refine_every;
    Arc::new(TrainStreamConfig {
        process_config: ProcessConfig { seed: 42, eval_every },
        train_config,
        model_config: ModelConfig { sh_degree },
        load_config: LoadDataseConfig {
            max_frames: None,
            max_resolution: 1920,
            eval_split_every: None,
            subsample_frames: None,
            subsample_points: None,
            alpha_mode: None,
            estimate_metric_scale: false,
        },
        incremental_train_config: brush_incremental::context::IncrementalTrainConfig {
            view_sampling_strategy: "random".to_owned(),
            depth_landmark_min_dist: 0.01f32.to_bits(),
            depth_landmark_scale_factor: 1.0f32.to_bits(),
            add_gaussians_every_secs: 1.0f64.to_bits(),
            opacity_reset_every: 0,
            opacity_reset_value: 0.01f32.to_bits(),
            opacity_decay_every: 2,
            opacity_decay_amount: 0.004f32.to_bits(),
            initial_opacity: 0.01f32.to_bits(),
        },
    })
}

#[test]
fn defaults_of_the_process() {
    let config = IncrementalProcessConfig::default();
    assert_eq!(config.seed, 42);
    assert!(!config.eval_train_views);
    assert_eq!(config.export_every_secs, None);
    assert_eq!(config.export_ply_path, "./plys");
    assert_eq!(config.export_poses_path, "./meta");
    assert_eq!(config.export_meta_info_path, "./meta");
    assert_eq!(config.sh_degree, 1);
    assert_eq!(config.render_mode, SplatRenderMode::Default);
    assert_eq!(config.landmark_add_mode, GaussianAddingMode::StridedDepth);
    assert_eq!(f32::from_bits(config.occupancy_grid_size), 0.04);
    assert_eq!(f32::from_bits(config.cov_init_scale_factor), 2.0);
    assert_eq!(f32::from_bits(config.cov_init_opacity), 0.9);
    assert_eq!(config.gaussians_init_depth_stride, 32);
    assert_eq!(config.train_config.view_sampling_strategy, "");
    assert_eq!(DensifyScaleMode::default(), DensifyScaleMode::Constant);
    assert!(ModelConfig::with_sh_degree(4).is_some());
    assert!(ModelConfig::with_sh_degree(5).is_none());
}

#[test]
fn training_settings_replace_only_what_they_name() {
    let mut cfg = IncrementalTrainConfig::default();
    cfg.densify_at = 77;
    cfg.single_view_lr_mean = 100;
    cfg.lr_pose_opt = 55;
    cfg.pose_opt = true;
    let burst = cfg.burst_train_config(base(), SplatRenderMode::Mip);
    assert_eq!(burst.total_train_iters, 77);
    assert_eq!(burst.render_mode, Some(SplatRenderMode::Mip));
    assert_eq!(burst.lr_mean, 100);
    assert_eq!(burst.lr_opac, 0);
    assert_eq!(burst.refine_every, 200);
    assert_eq!(burst.lr_pose, 12);
    let all = cfg.create_all_view_train_config(base(), 66);
    assert_eq!((all.lr_mean, all.lr_mean_end), (66, 66));
    assert_eq!((all.lr_pose, all.lr_pose_end, all.pose_opt), (55, 55, true));
    assert_eq!(all.total_train_iters, 30000);
    assert_eq!(all.lr_scale, 5);
}

#[test]
fn messages_decide_what_is_done() {
    let t = trainer();
    let m = Received::Message;
    assert_eq!(t.next_action(m(IncrementalTrainMessage::ComputeUnreconstructedAreaAndSSIM)), LoopAction::ComputeAreaAndSsim);
    assert_eq!(t.next_action(m(IncrementalTrainMessage::NewView)), LoopAction::AddView);
    assert_eq!(t.next_action(m(IncrementalTrainMessage::ExternalPoseUpdate)), LoopAction::UpdatePoses);
    assert_eq!(t.next_action(m(IncrementalTrainMessage::Train)), LoopAction::Train);
    assert_eq!(t.next_action(m(IncrementalTrainMessage::Eval)), LoopAction::Eval { train_views: false });
    assert_eq!(t.next_action(m(IncrementalTrainMessage::Stop)), LoopAction::Stop);
    assert_eq!(t.next_action(Received::Empty), LoopAction::Train);
    assert_eq!(t.next_action(Received::Disconnected), LoopAction::Stop);
}

#[test]
fn without_splats_there_is_nothing_to_show() {
    let mut t = trainer();
    assert!(t.must_wait());
    assert!(t.message_received());
    assert!(!t.message_received());
    assert_eq!(t.area_and_ssim_without_splats(), Some((WHOLE_AREA, WORST_SSIM)));
    assert_eq!(f32::from_bits(WHOLE_AREA), 1.0);
    assert_eq!(f32::from_bits(WORST_SSIM), -1.0);
    t.add_view(view(1, None, true));
    assert!(t.views_to_evaluate(false).is_empty());
    assert!(t.update_splat_in_ui().is_empty());
    assert!(t.train(0, base(), 0).is_none());
    assert_eq!(names(&t.init_ui()), vec!["new", "incremental", "config"]);
}

#[test]
fn strided_host_views_own_their_splats() {
    let mut t = trainer();
    let mut host = t.add_view(view(10, Some(vec![1.0, 0.0, 1.0, 1.0]), false)).unwrap();
    assert_eq!(host.added, vec![false; 4]);
    let new = t.add_from_strided_depth(&mut host, 5, at);
    assert_eq!(new.means, vec![0, 0, 0, 2, 2, 2, 3, 3, 3]);
    assert_eq!(new.sh_coeffs, vec![7; 9]);
    assert_eq!(new.log_scales, Some(vec![9; 9]));
    assert_eq!(new.raw_opacities, vec![5; 3]);
    assert_eq!(new.sh_degree, 1);
    assert_eq!(host.added, vec![true, false, true, true]);
    t.finish_host_view(host);
    assert!(!t.must_wait());

    let mut host = t.add_view(view(20, Some(vec![1.0; 4]), false)).unwrap();
    assert_eq!(host.splats_before, 3);
    let new = t.add_with_occupancy_grid(&mut host, &vec![far((0, 0, 0)), far((3, 0, 0))], 6, at, apart).unwrap();
    assert_eq!(new.means, vec![1, 1, 1, 2, 2, 2]);
    assert_eq!(host.added, vec![false, true, true, false]);
    t.finish_host_view(host);
    assert!(t.add_view(view(30, None, false)).is_none());

    let poses = vec![
        (20, [50, 0, 0], [0, 0, 0, 60]),
        (30, [70, 0, 0], [0, 0, 0, 80]),
        (99, [1, 1, 1], [1, 1, 1, 1]),
        (10, [90, 0, 0], [0, 0, 0, 91]),
    ];
    let updates = t.update_poses(&poses, |c: Camera, p: [u32; 3], q: [u32; 4]| ([c.position[0], p[0], 0], q)).unwrap();
    assert_eq!(updates.len(), 2);
    assert_eq!(
        updates[0],
        PoseUpdate { translation: [20.0f32.to_bits(), 50, 0], rotation: [0, 0, 0, 60], start: 3, end: 5 }
    );
    assert_eq!((updates[1].start, updates[1].end), (0, 3));
    let cameras = t.train_cameras();
    assert_eq!(cameras[0].position, [90, 0, 0]);
    assert_eq!(cameras[1].position, [50, 0, 0]);
    assert_eq!(cameras[2].rotation, [0, 0, 0, 80]);
    assert_eq!(cameras[2].fov_x, 1.0f64.to_bits());

    let info = t.export_meta_info(123);
    assert_eq!((info.train_view_count, info.host_view_count, info.num_splats), (3, 2, 5));
    assert_eq!(info.timestamp_ns, 123);
}

#[test]
fn settings_decide_how_splats_are_added() {
    for (mode, expected) in [(GaussianAddingMode::OccupancyGrid, 6), (GaussianAddingMode::StridedDepth, 9)] {
        let mut cfg = config();
        cfg.landmark_add_mode = mode;
        let mut t = IncrementalTrainer::new(cfg, None);
        let mut host = t.add_view(view(10, Some(vec![1.0, 0.0, 1.0, 1.0]), false)).unwrap();
        let new = t.add_host_view(&mut host, &vec![far((3, 0, 0))], 6, at, apart).unwrap();
        assert_eq!(new.means.len(), expected);
    }
}

#[test]
fn new_splats_keep_their_distance() {
    let next_to = |a: [u32; 3], b: [u32; 3]| a[0].abs_diff(b[0]) < 2;
    let mut t = trainer();
    let mut host = t.add_view(view(10, Some(vec![1.0; 4]), false)).unwrap();
    let existing = vec![Occupant { cell: (9, 9, 9), mean: [0; 3] }];
    let new = t.add_with_occupancy_grid(&mut host, &existing, 6, at, next_to).unwrap();
    assert_eq!(new.means, vec![2, 2, 2]);
    assert_eq!(host.added, vec![false, false, true, false]);

    let mut ctx = IncrementalTrainContext::new(filled_database(), context_config());
    let (image, depth) = (raster(2, 2), Arc::new(vec![1.0f32.to_bits(); 4]));
    let added = ctx.add_new_landmarks_by_depth(&image, &depth, &vec![], 4, at, next_to);
    assert_eq!(added.arrays.means, vec![0, 0, 0, 2, 2, 2]);
    let again = ctx.add_new_landmarks_by_depth(&image, &depth, &vec![], 4, at, next_to);
    assert_eq!((again.before, again.after), (2, 2));
}

#[test]
fn densification_forks_the_generator() {
    let mut t = trainer();
    let mut host = t.add_view(view(10, Some(vec![1.0; 4]), false)).unwrap();
    t.add_with_occupancy_grid(&mut host, &vec![far((0, 0, 0))], 6, at, apart);
    host.added = vec![false; 4];
    let ssim = vec![(-1.0f32).to_bits(); 4];
    let drawing = t.start_densify(&host, &ssim, 2, |_| 1.0f32.to_bits()).unwrap();
    let mut rng = StdRng::from_seed([42; 32]);
    assert_eq!(drawing.rng, SmallRng::from_rng(&mut rng));
    assert_eq!(drawing.rng, SmallRng::from_seed(drawing.seed));
    assert_eq!(t.generator().random::<u64>(), rng.random::<u64>());
}

#[test]
fn host_views_own_adjacent_splats() {
    let mut t = trainer();
    for id in [10, 20] {
        let mut host = t.add_view(view(id, Some(vec![1.0; 4]), false)).unwrap();
        t.add_host_view(&mut host, &vec![], 0, at, apart).unwrap();
        t.finish_host_view(host);
    }
    let still = |_: Camera, p: [u32; 3], q: [u32; 4]| (p, q);
    let updates = t.update_poses(&vec![(10, [0; 3], [0; 4]), (20, [0; 3], [0; 4])], still).unwrap();
    let ranges: Vec<(usize, usize)> = updates.iter().map(|u| (u.start, u.end)).collect();
    assert_eq!(ranges, vec![(0, 4), (4, 8)]);
}

#[test]
fn equal_seeds_give_equal_generators() {
    let (mut a, mut b) = (trainer(), trainer());
    let first: u64 = a.generator().random();
    assert_eq!(first, b.generator().random::<u64>());
    let second: u64 = a.generator().random();
    assert_ne!(first, second);
}

#[test]
fn without_views_the_quality_is_nothing() {
    let mut t = trainer();
    assert_eq!(t.eval_without_views(true), Some((0, 0)));
    let mut host = t.add_view(view(10, Some(vec![1.0; 4]), false)).unwrap();
    assert_eq!(t.eval_without_views(true), Some((0, 0)));
    t.add_host_view(&mut host, &vec![], 0, at, apart);
    assert_eq!(t.eval_without_views(true), None);
    assert_eq!(t.eval_without_views(false), Some((0, 0)));
}

#[test]
fn opacities_are_reset_now_and_then() {
    let mut stream = stream_config(2, 5, 7);
    Arc::get_mut(&mut stream).unwrap().incremental_train_config.opacity_reset_every = 2;
    let mut config = context_config();
    config.stream = stream;
    let mut ctx = IncrementalTrainContext::new(filled_database(), config);
    ctx.grow();
    ctx.train_step(None);
    assert!(!ctx.duties(true).reset_opacity);
    ctx.train_step(None);
    assert!(ctx.duties(true).reset_opacity);
    assert!(!ctx.duties(false).reset_opacity);
}

#[test]
fn a_full_grid_adds_nothing() {
    let mut t = trainer();
    let mut host = t.add_view(view(10, Some(vec![1.0, 0.0, 0.0, 0.0]), false)).unwrap();
    assert!(t.add_with_occupancy_grid(&mut host, &vec![far((0, 0, 0))], 6, at, apart).is_none());
    assert!(!t.has_splats());
}

#[test]
fn neighbours_may_decide_the_first_scales() {
    let mut cfg = config();
    cfg.init_scales_with_knn = true;
    let mut t = IncrementalTrainer::new(cfg, None);
    let mut host = t.add_view(view(10, Some(vec![1.0; 4]), false)).unwrap();
    assert!(t.add_from_strided_depth(&mut host, 0, at).log_scales.is_none());
    assert!(t.init_ui().is_empty());
    assert!(t.update_splat_in_ui().is_empty());
    assert!(t.update_ui_dataset().is_none());
    assert!(t.update_train_status_ui(1).is_empty());
    assert!(t.update_eval_ui(1, 2).is_empty());
}

#[test]
fn densification_fills_bad_pixels() {
    let mut cfg = config();
    cfg.gaussians_init_depth_stride = 2;
    cfg.train_config.densify_ssim_threshold = 0.5f32.to_bits();
    cfg.train_config.densify_max_samples = 10;
    cfg.train_config.densify_at = 3;
    let mut t = IncrementalTrainer::new(cfg, Some(UpdateUiContext::new()));
    let mut host = t.add_view(view(10, Some(vec![1.0; 4]), false)).unwrap();
    t.add_from_strided_depth(&mut host, 0, at);
    assert_eq!(host.added, vec![true, false, false, false]);
    let plan = t.train_view(base(), 1);
    assert!(plan.densify);
    assert_eq!((plan.burst_steps, plan.steps), (3, 0));
    assert_eq!(plan.burst_config.total_train_iters, 3);
    let ssim: Vec<u32> = [0.0f32, 0.2, 0.9, 0.1].iter().map(|v| v.to_bits()).collect();
    assert!(t.start_densify(&host, &ssim, 0, |s| s).is_none());
    assert!(t.start_densify(&host, &ssim, 4, |_| 0).is_none());
    let mut sampler = t.start_densify(&host, &ssim, 4, |s| s).unwrap().sampler;
    assert_eq!(sampler.candidate_weights(), &vec![0.2f32.to_bits(), 0.1f32.to_bits()]);
    sampler.take_draws(&vec![1, 1, 0], &mut host.added);
    assert!(sampler.is_done());
    let new = t.densify(&host, sampler, 77, 8, at);
    assert_eq!(new.means, vec![3, 3, 3, 1, 1, 1]);
    assert_eq!(new.log_scales, Some(vec![77; 6]));
    assert_eq!(host.added, vec![true, true, false, true]);
    t.finish_host_view(host);
    assert_eq!(t.export_meta_info(0).num_splats, 3);
}

#[test]
fn batches_know_their_view() {
    let mut t = trainer();
    t.add_view(view(10, None, false));
    t.add_view(view(20, None, false));
    let again = view(20, None, false);
    let batch = t.build_scene_batch(&again);
    assert_eq!(batch.view_index, 1);
    assert_eq!(batch.alpha_mode, AlphaMode::Masked);
    assert!(t.sampling_weights().is_none());
    for _ in 0..20 {
        let batch = t.get_next_train_batch(None);
        let expected = if batch.view_index == 0 { 10.0f32 } else { 20.0 };
        assert_eq!(batch.camera.position[0], expected.to_bits());
    }
    t.correct_cameras(&vec![camera(1.5)]);
    assert_eq!(t.train_cameras()[0], camera(1.5));
    assert_eq!(t.train_cameras()[1], camera(20.0));
}

#[test]
fn viewers_hear_once_that_loading_is_done() {
    let mut t = trainer();
    let mut host = t.add_view(view(10, Some(vec![1.0; 4]), false)).unwrap();
    t.update_up_axis([1, 2, 3]);
    t.update_up_axis([4, 5, 6]);
    t.add_from_strided_depth(&mut host, 0, at);
    t.finish_host_view(host);
    let first = t.update_splat_in_ui();
    assert_eq!(names(&first), vec!["done", "splats", "focus"]);
    match &first[1] {
        ProcessMessage::SplatsUpdated { up_axis, frame, total_frames, num_splats, sh_degree } => {
            assert_eq!(*up_axis, Some([1, 2, 3]));
            assert_eq!((*frame, *total_frames, *num_splats, *sh_degree), (0, 1, 4, 1));
        }
        _ => panic!("not about splats"),
    }
    match &first[2] {
        ProcessMessage::FocusCamera { camera: focus } => assert_eq!(*focus, camera(10.0)),
        _ => panic!("not a focus"),
    }
    let second = t.update_splat_in_ui();
    assert_eq!(names(&second), vec!["splats", "focus"]);
    assert!(matches!(second[0], ProcessMessage::SplatsUpdated { up_axis: None, .. }));
    let (dataset, held_back) = listed(&t.update_ui_dataset().unwrap());
    assert_eq!(dataset, vec!["10.png"]);
    assert!(held_back.is_empty());
    assert!(matches!(t.init_ui()[2], ProcessMessage::TrainConfig { config: None }));
    let status = t.update_train_status_ui(99);
    assert!(matches!(status[0], ProcessMessage::SplatsUpdated { num_splats: 4, .. }));
    assert!(matches!(status[1], ProcessMessage::TrainStep { iter: 0, total_elapsed: 99 }));
    assert!(matches!(t.update_eval_ui(1, 2)[0], ProcessMessage::EvalResult { iter: 0, avg_psnr: 1, avg_ssim: 2 }));
}

#[test]
fn all_views_are_trained_with_one_optimiser() {
    let mut cfg = config();
    cfg.train_config.pose_opt = true;
    let mut t = IncrementalTrainer::new(cfg, None);
    let mut host = t.add_view(view(10, Some(vec![1.0; 4]), false)).unwrap();
    t.add_from_strided_depth(&mut host, 0, at);
    t.finish_host_view(host);
    let first = t.train(1, base(), 3).unwrap();
    assert_eq!(first.new_trainer.unwrap().lr_mean, 3);
    assert_eq!(first.pose_opt_views, Some(1));
    let second = t.train(1, base(), 3).unwrap();
    assert!(second.new_trainer.is_none());
    assert_eq!(t.views_to_evaluate(true).len(), 1);
    assert!(t.views_to_evaluate(false).is_empty());
}

#[test]
fn exports_come_when_they_are_due() {
    let mut cfg = config();
    cfg.export_every_secs = Some(2.0f64.to_bits());
    let mut t = IncrementalTrainer::new(cfg, None);
    assert_eq!(t.export_count(), 1);
    assert!(!t.export_due(2.0f64.to_bits(), 2.0f64.to_bits()));
    assert!(t.export_due(2.1f64.to_bits(), 2.0f64.to_bits()));
    t.exported();
    assert_eq!(t.export_count(), 2);
    assert!(!trainer().export_due(9.0f64.to_bits(), 2.0f64.to_bits()));
    for (frame, x) in [(30, 3.0), (10, 1.0), (20, 2.0), (10, 4.0)] {
        let mut v = view(frame, None, false);
        v.camera = camera(x);
        t.add_view(v);
    }
    let order: Vec<(i64, f32)> =
        t.export_poses().iter().map(|(id, c)| (*id, f32::from_bits(c.position[0]))).collect();
    assert_eq!(order, vec![(10, 1.0), (10, 4.0), (20, 2.0), (30, 3.0)]);
}

#[test]
fn moving_splats_keeps_scales_and_other_rows() {
    let mut data: Vec<u32> = (0..30).collect();
    let updates = vec![
        PoseUpdate { translation: [1, 0, 0], rotation: [0; 4], start: 1, end: 3 },
        PoseUpdate { translation: [100, 0, 0], rotation: [0; 4], start: 2, end: 3 },
        PoseUpdate { translation: [9, 9, 9], rotation: [9; 4], start: 9, end: 2 },
    ];
    move_splats(&mut data, &updates, |u: PoseUpdate, p: SplatPose| SplatPose {
        mean: [p.mean[0] + u.translation[0], p.mean[1], p.mean[2]],
        rotation: [p.rotation[3], p.rotation[1], p.rotation[2], p.rotation[0]],
    });
    assert_eq!(data[..10], (0..10).collect::<Vec<u32>>()[..]);
    assert_eq!(data[10..20], [11, 11, 12, 14, 13, 15, 16, 17, 18, 19]);
    assert_eq!(data[20..30], [121, 21, 22, 23, 24, 25, 26, 27, 28, 29]);
}

#[test]
fn pose_corrections_start_at_zero() {
    let mut opt = PoseOptimizer::new(2);
    assert_eq!(opt.delta_rows(), vec![[0; 6]; 2]);
    let shift = |d: [u32; 6], _c: [u32; 3], p: SplatPose| SplatPose {
        mean: [p.mean[0] + d[3], p.mean[1] + d[4], p.mean[2] + d[5]],
        rotation: p.rotation,
    };
    let mut data: Vec<u32> = (0..20).collect();
    opt.apply(&mut data, 0, [0; 3], shift);
    assert_eq!(data, (0..20).collect::<Vec<u32>>());
    opt.set_deltas(vec![0, 0, 0, 0, 0, 0, 0, 0, 0, 10, 20, 30]);
    opt.apply(&mut data, 1, [0; 3], shift);
    assert_eq!(data[..10], [10, 21, 32, 3, 4, 5, 6, 7, 8, 9]);
    assert_eq!(data[10..], [20, 31, 42, 13, 14, 15, 16, 17, 18, 19]);
    let cameras = vec![camera(0.0), camera(0.0), camera(7.0)];
    let fixed = opt.corrected_cameras(&cameras, |d: [u32; 6], c: Camera| ([d[3], d[4], d[5]], c.rotation));
    assert_eq!(fixed[1], camera(0.0).with_pose([10, 20, 30], camera(0.0).rotation));
    assert_eq!(fixed[1].position, [10, 20, 30]);
    assert_eq!(fixed[2], camera(7.0));
}

/// A correction: rotation about the camera centre, then translation.
fn correct(delta: [u32; 6], centre: [u32; 3], pose: SplatPose) -> SplatPose {
    let d = delta.map(f32::from_bits);
    let centre = Vec3::from_array(centre.map(f32::from_bits));
    let turn = Quat::from_scaled_axis(Vec3::new(d[0], d[1], d[2]));
    let mean = Vec3::from_array(pose.mean.map(f32::from_bits));
    let moved = turn * (mean - centre) + centre + Vec3::new(d[3], d[4], d[5]);
    let turned = turn * Quat::from_array(pose.rotation.map(f32::from_bits));
    SplatPose { mean: moved.to_array().map(f32::to_bits), rotation: turned.to_array().map(f32::to_bits) }
}

/// Two splats without rotation.
fn sample_transforms() -> Vec<u32> {
    [
        [1.0f32, 2.0, 3.0, 1.0, 0.0, 0.0, 0.0, -1.0, -1.0, -1.0],
        [0.5, 0.0, -2.0, 1.0, 0.0, 0.0, 0.0, 0.0, 0.0, 0.0],
    ]
    .concat()
    .into_iter()
    .map(f32::to_bits)
    .collect()
}

fn max_abs_diff(a: &[u32], b: &[u32]) -> f32 {
    a.iter().zip(b).map(|(x, y)| (f32::from_bits(*x) - f32::from_bits(*y)).abs()).fold(0.0, f32::max)
}

#[test]
fn zero_delta_is_identity() {
    let opt = PoseOptimizer::new(2);
    let mut out = sample_transforms();
    opt.apply(&mut out, 0, [4.0f32, -1.0, 0.5].map(f32::to_bits), correct);
    assert!(max_abs_diff(&out, &sample_transforms()) < 1e-5);
}

#[test]
fn pure_translation_shifts_means_only() {
    let mut opt = PoseOptimizer::new(1);
    opt.set_deltas([0.0f32, 0.0, 0.0, 0.1, 0.2, -0.3].map(f32::to_bits).to_vec());
    let mut out = sample_transforms();
    opt.apply(&mut out, 0, [0.0f32; 3].map(f32::to_bits), correct);
    let mut expected = sample_transforms();
    for row in 0..2 {
        for (k, shift) in [0.1f32, 0.2, -0.3].iter().enumerate() {
            expected[10 * row + k] = (f32::from_bits(expected[10 * row + k]) + shift).to_bits();
        }
    }
    assert!(max_abs_diff(&out, &expected) < 1e-5);
    assert_eq!(out[3..10], sample_transforms()[3..10]);
}

fn context_config() -> ContextConfig {
    ContextConfig {
        stream: stream_config(2, 2, 3),
        densify: DensifyConfig {
            steps: 30,
            every: 10,
            init_depth_stride: 0,
            scale_mode: DensifyScaleMode::Constant,
            lr_mean: 1,
            lr_scale: 2,
            ssim_weight: 3,
            depth_loss: 4,
            anti_needle_loss: 5,
        },
    }
}

fn filled_database() -> IncrementalDatabase {
    let mut db = IncrementalDatabase::new(camera(0.0), "random", None, 1);
    for id in [1u64, 2] {
        db.add_pose(PoseData { frame_id: id, translation: [id as u32, 0, 0], quat: [0, 0, id as u32, 0] });
        db.add_image(ImageData { frame_id: id, image: raster(2, 2), depth: Arc::new(vec![1.0f32.to_bits(); 4]) });
    }
    db
}

fn duties(refine: bool, decay_opacity: bool, status: bool, eval: bool) -> Duties {
    Duties { refine, reset_opacity: false, decay_opacity, status, eval }
}

#[test]
fn contexts_grow_then_refine() {
    let mut ctx = IncrementalTrainContext::new(filled_database(), context_config());
    assert!(!ctx.growth_due(1.0f64.to_bits()));
    assert!(ctx.growth_due(1.5f64.to_bits()));
    assert!(!ctx.can_train());
    assert!(ctx.eval_step().is_none());
    let frames = match ctx.grow() {
        Growth::Extend(frames) => frames,
        Growth::Refine => panic!("frames are ready"),
    };
    assert_eq!(frames.len(), 2);
    assert!(matches!(ctx.grow(), Growth::Refine));
    let last = frames[1].1.clone();
    let messages = ctx.extend_gaussians(&frames, |axis: Option<[u32; 3]>, n: u32, q: [u32; 4]| {
        [axis.map_or(0, |a| a[0]) + q[2], n, 0]
    });
    assert!(matches!(&messages[0], ProcessMessage::NewImage { image } if Arc::ptr_eq(image, &last)));
    assert!(ctx.update_last_images(None).is_empty());
    assert!(!ctx.reset_trainer());

    let added = ctx.add_new_landmarks_by_depth(&frames[0].1, &frames[0].2, &vec![], 4, at, apart);
    assert_eq!((added.before, added.after), (0, 4));
    assert_eq!(added.raw_opacities, vec![4; 4]);
    let again = ctx.add_new_landmarks_by_depth(&frames[1].1, &frames[1].2, &vec![], 4, at, apart);
    assert_eq!((again.before, again.after), (4, 4));
    assert!(ctx.reset_trainer());
    assert!(ctx.can_train());

    let news = ctx.update_splat_in_ui();
    assert_eq!(names(&news), vec!["done", "splats"]);
    assert!(matches!(news[1], ProcessMessage::SplatsUpdated { up_axis: Some([3, 1, 0]), sh_degree: 2, .. }));
    assert_eq!(names(&ctx.update_splat_in_ui()), vec!["splats"]);
    let mut shown = listed(&ctx.update_ui_dataset()).0;
    shown.sort();
    assert_eq!(shown, vec!["1.png", "2.png"]);

    assert_eq!(ctx.duties(false), duties(false, false, true, true));
    ctx.train_step(None);
    assert_eq!(ctx.duties(true), duties(false, false, false, false));
    ctx.train_step(None);
    assert_eq!(ctx.duties(true), duties(true, true, false, false));
    assert_eq!(ctx.duties(false), duties(false, false, false, false));
    let message = ctx.refine(SplatInfo { num_splats: 3, sh_degree: 2 }, 3);
    assert!(matches!(message, ProcessMessage::RefineStep { cur_splat_count: 3, iter: 2 }));
    assert_eq!(ctx.splat_count(), 3);
    let after_step = ctx.add_new_landmarks_by_depth(&frames[0].1, &frames[0].2, &vec![far((0, 0, 0))], 4, at, apart);
    assert_eq!((after_step.before, after_step.after), (3, 6));
    assert_eq!(ctx.eval_step().unwrap().len(), 0);
    assert!(matches!(ctx.eval_message(5, 6), ProcessMessage::EvalResult { iter: 2, avg_psnr: 5, avg_ssim: 6 }));
    assert!(matches!(ctx.update_train_status_ui(8)[1], ProcessMessage::TrainStep { iter: 2, total_elapsed: 8 }));
    let opening = ctx.init_ui();
    assert_eq!(names(&opening), vec!["new", "incremental", "config"]);
    assert!(matches!(&opening[2], ProcessMessage::TrainConfig { config: Some(c) } if c.model_config.sh_degree == 2));
}

#[test]
fn contexts_densify_new_frames() {
    let mut cfg = context_config();
    let burst = cfg.densify.burst_train_config(base());
    assert_eq!((burst.total_train_iters, burst.lr_mean, burst.lr_mean_end, burst.lr_scale_end), (30, 1, 1, 6));
    cfg.densify.init_depth_stride = 2;
    let mut ctx = IncrementalTrainContext::new(filled_database(), cfg);
    assert!(!ctx.densify_due(9));
    assert!(ctx.densify_due(20));
    let depth = vec![1.0f32.to_bits(); 4];
    let mut added = vec![false; 4];
    let seeds = ctx.strided_depth_points(&raster(2, 2), &depth, &mut added, 1, at);
    assert_eq!((seeds.before, seeds.after), (0, 1));
    assert_eq!(added, vec![true, false, false, false]);
    assert!(ctx.plan_densify(&added, &depth, 0, |_| 1.0f32.to_bits()).is_none());
    assert!(ctx.plan_densify(&added, &depth, 5, |_| 0).is_none());
    let plan = ctx.plan_densify(&added, &depth, 2, |i| (i as f32).to_bits()).unwrap();
    assert_eq!(plan.weights, vec![0, 1.0f32.to_bits(), 2.0f32.to_bits(), 3.0f32.to_bits()]);
    assert_eq!(plan.n, 2);
    let new = ctx.ssim_densify_once(&mut added, &vec![3, 1], 50, 2, at);
    assert_eq!(new.arrays.means, vec![3, 3, 3, 1, 1, 1]);
    assert_eq!(new.arrays.log_scales, Some(vec![50; 6]));
    assert_eq!(added, vec![true, true, false, true]);
    assert_eq!(ctx.splat_count(), 3);

    let ranges = HashMap::from([(1u64, (0usize, 2usize)), (2, (2, 3))]);
    assert!(ctx.update_poses(&vec![], &ranges).is_none());
    let updates = ctx.update_poses(&vec![(2, [1, 2, 3], [4, 5, 6, 7])], &ranges).unwrap();
    assert_eq!(updates, vec![PoseUpdate { translation: [1, 2, 3], rotation: [4, 5, 6, 7], start: 2, end: 3 }]);
}

fn mask(width: u32, height: u32) -> RasterImage {
    RasterImage { width, height, bytes: [255, 0, 255, 255][..(width * height) as usize].to_vec() }
}

fn frame_data(n: i64) -> NewTrainingData {
    let frames: Vec<(i64, [u32; 3], [u32; 4], Vec<u8>)> =
        (0..n).map(|i| (i - 1, [i as u32, 0, 0], [0, 0, 0, 5], vec![10, 20, 30, 40])).collect();
    let landmarks = vec![[1, 2, 3], [4, 5, 6]];
    NewTrainingData::build_from_frame_data(&frames, landmarks, camera(0.0), 2, 2, &mask(2, 2)).unwrap()
}

#[test]
fn frames_become_training_data() {
    let data = frame_data(2);
    assert_eq!(data.training_views[1].camera.position, [1, 0, 0]);
    assert_eq!(data.training_views[0].image.bytes[..8], [10, 10, 10, 255, 20, 20, 20, 0]);
    assert_eq!(data.scene_views[0].image_name, "-1.png");
    assert_eq!(data.scene_views[1].image_name, "0.png");
    assert_eq!(data.new_landmarks.len(), 2);
    let files = data.scene_views[0].files.as_ref().unwrap();
    let png = image::load_from_memory(&files.png).unwrap().to_luma8();
    assert_eq!(png.dimensions(), (2, 2));
    assert_eq!(png.into_raw(), vec![10, 20, 30, 40]);
    let mask = image::load_from_memory(&files.mask_png).unwrap().to_luma8();
    assert_eq!(mask.into_raw(), vec![255, 0, 255, 255]);
}

#[test]
fn images_without_pixels_cannot_be_encoded() {
    let frames = vec![(1, [0; 3], [0; 4], vec![])];
    let built = NewTrainingData::build_from_frame_data(&frames, vec![], camera(0.0), 0, 0, &mask(0, 0));
    assert_eq!(built.err(), Some(FrameDataError::Encoding));
}

#[test]
fn masks_of_another_shape_are_refused() {
    let built = NewTrainingData::build_from_frame_data(&vec![], vec![], camera(0.0), 4, 1, &mask(2, 2));
    let mismatch = MaskMismatch { mask_width: 2, mask_height: 2, img_width: 4, img_height: 1 };
    assert_eq!(built.err(), Some(FrameDataError::Mask(mismatch)));
}

#[test]
fn streams_train_once_there_are_splats() {
    let mut stream = TrainStream::new(stream_config(3, 5, 1));
    assert!(stream.next_batch().is_none());
    let opening = stream.opening();
    assert_eq!(names(&opening), vec!["new", "incremental", "config", "views"]);
    assert!(matches!(
        opening[1],
        ProcessMessage::StartLoading { source: DataSource::Path("incremental"), training: true, base_path: None, .. }
    ));
    assert!(matches!(&opening[2], ProcessMessage::TrainConfig { config: Some(c) } if c.train_config.refine_every == 5));
    assert_eq!(listed(&opening[3]), (vec![], vec![]));
    let mut empty = frame_data(1);
    empty.new_landmarks.clear();
    let actions = stream.take_data(empty, |q: [u32; 4]| [q[3], 8, 9]);
    assert!(actions.new_means.is_none());
    assert!(!actions.reset_trainer);
    assert_eq!(names(&actions.messages), vec!["views"]);
    assert_eq!(listed(&actions.messages[0]), (vec!["-1.png".to_owned()], vec![]));
    assert!(stream.next_batch().is_none());

    let actions = stream.take_data(frame_data(2), |_| [0, 0, 0]);
    assert_eq!(actions.new_means, Some(vec![1, 2, 3, 4, 5, 6]));
    assert!(actions.reset_trainer);
    assert_eq!(names(&actions.messages), vec!["views", "done", "splats"]);
    assert_eq!(listed(&actions.messages[0]).0, vec!["-1.png", "-1.png", "0.png"]);
    assert!(matches!(
        actions.messages[2],
        ProcessMessage::SplatsUpdated { up_axis: Some([5, 8, 9]), num_splats: 2, sh_degree: 3, .. }
    ));
    assert_eq!(stream.scene_views().len(), 3);
    let mut more = frame_data(0);
    more.new_landmarks.clear();
    assert_eq!(names(&stream.take_data(more, |_| [0, 0, 0]).messages), vec!["views", "splats"]);

    let batch = stream.next_batch().unwrap();
    assert_eq!(batch.alpha_mode, AlphaMode::Masked);
    assert!(batch.depth.is_none());
    for step in 1..=5u32 {
        assert_eq!(stream.step_done(10), step == 5);
        assert_eq!(stream.progress().len(), if step == 5 { 2 } else { 0 });
    }
    let message = stream.refined(SplatInfo { num_splats: 9, sh_degree: 3 }, 9);
    assert!(matches!(message, ProcessMessage::RefineStep { cur_splat_count: 9, iter: 5 }));
    assert!(matches!(stream.progress()[1], ProcessMessage::TrainStep { iter: 5, total_elapsed: 50 }));
}
