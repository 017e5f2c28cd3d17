//! The database of frames, and the order in which views are sampled.
use brush_incremental::camera::Camera;
use brush_incremental::database::{AlphaMode, ImageData, IncrementalDatabase, PoseData};
use brush_incremental::raster::RasterImage;
use brush_incremental::view_sampling::{
    create_view_sampler, parse_strategy, RandomViewSampler, SamplingStrategy, SlidingWindowViewSampler,
    TrainFrequencyWeightedViewSampler, ViewSampler,
};
use rand::rngs::StdRng;
use rand::SeedableRng;
use std::collections::HashSet;
use std::sync::Arc;

fn unit_camera() -> Camera {
    Camera {
        position: [0; 3],
        rotation: [0, 0, 0, 1.0f32.to_bits()],
        fov_x: 1.2f64.to_bits(),
        fov_y: 0.9f64.to_bits(),
        center_uv: [0.5f32.to_bits(); 2],
    }
}

fn pose(frame_id: u64, x: f32) -> PoseData {
    PoseData { frame_id, translation: [x.to_bits(), 0, 0], quat: [0, 0, 0, 1.0f32.to_bits()] }
}

fn image(frame_id: u64, level: u8) -> ImageData {
    ImageData {
        frame_id,
        image: Arc::new(RasterImage { width: 1, height: 1, bytes: vec![level, level, level, 255] }),
        depth: Arc::new(vec![2.0f32.to_bits()]),
    }
}

fn database(strategy: &str, eval_every: Option<usize>) -> IncrementalDatabase {
    IncrementalDatabase::new(unit_camera(), strategy, eval_every, 42)
}

#[test]
fn strategies_are_read_by_name() {
    assert_eq!(parse_strategy("random"), Some(SamplingStrategy::Random));
    assert_eq!(parse_strategy("weighted"), Some(SamplingStrategy::Weighted));
    assert_eq!(parse_strategy("sliding-window-12"), Some(SamplingStrategy::SlidingWindow(12)));
    assert_eq!(parse_strategy("sliding7"), None);
    assert_eq!(parse_strategy("sliding-"), None);
    assert_eq!(parse_strategy("sliding-+3"), Some(SamplingStrategy::SlidingWindow(3)));
    assert_eq!(parse_strategy("Random"), None);
    assert_eq!(parse_strategy(""), None);
}

#[test]
fn random_sampler_reaches_every_frame() {
    let mut sampler = RandomViewSampler::new();
    for frame in [5u64, 9, 11] {
        sampler.added_new_item(frame);
    }
    let mut rng = StdRng::seed_from_u64(3);
    let mut seen = HashSet::new();
    for _ in 0..200 {
        seen.insert(sampler.sample(&mut rng, None));
    }
    assert_eq!(seen, HashSet::from([5, 9, 11]));
}

#[test]
fn sliding_window_forgets_old_frames() {
    let mut sampler = SlidingWindowViewSampler::new(2);
    for frame in [5u64, 9, 11, 13] {
        sampler.added_new_item(frame);
    }
    let mut rng = StdRng::seed_from_u64(3);
    let mut seen = HashSet::new();
    for _ in 0..200 {
        seen.insert(sampler.sample(&mut rng, None));
    }
    assert_eq!(seen, HashSet::from([11, 13]));
}

#[test]
fn weighted_sampler_counts_what_was_drawn() {
    let mut sampler = TrainFrequencyWeightedViewSampler::new();
    sampler.added_new_item(4);
    sampler.added_new_item(6);
    let mut rng = StdRng::seed_from_u64(3);
    assert_eq!(sampler.inverse_weights(), vec![1, 1]);
    assert_eq!(sampler.sample(&mut rng, Some(1)), 6);
    assert_eq!(sampler.sample(&mut rng, Some(1)), 6);
    assert_eq!(sampler.sample(&mut rng, Some(0)), 4);
    assert_eq!(sampler.inverse_weights(), vec![2, 3]);
    sampler.added_new_item(8);
    assert_eq!(sampler.inverse_weights(), vec![2, 3, 1]);
}

#[test]
fn only_the_weighted_strategy_has_weights() {
    assert!(create_view_sampler("random").inverse_weights().is_none());
    assert!(create_view_sampler("sliding-3").inverse_weights().is_none());
    assert_eq!(create_view_sampler("weighted").inverse_weights(), Some(vec![]));
}

#[test]
fn frames_wait_for_image_and_depth() {
    let mut db = database("random", None);
    assert!(db.is_empty());
    db.add_pose(pose(1, 1.0));
    db.add_pose(pose(2, 2.0));
    assert!(!db.is_empty());
    assert_eq!(db.total_view_count(), 2);
    assert!(db.get_unregistered_frames().is_empty());

    db.add_image(image(2, 20));
    let ready = db.get_unregistered_frames();
    assert_eq!(ready.len(), 1);
    assert_eq!(ready[0].0.position[0], 2.0f32.to_bits());
    assert_eq!(ready[0].0.fov_x, 1.2f64.to_bits());
    assert_eq!(ready[0].1.bytes, vec![20, 20, 20, 255]);
    assert_eq!(*ready[0].2, vec![2.0f32.to_bits()]);
    assert!(db.get_unregistered_frames().is_empty());

    db.add_image(image(1, 10));
    assert_eq!(db.get_unregistered_frames().len(), 1);
    assert!(db.get_unregistered_frames().is_empty());
}

#[test]
fn training_uses_the_latest_pose() {
    let mut db = database("random", None);
    db.add_pose(pose(7, 1.0));
    db.add_image(image(7, 70));
    assert_eq!(db.get_unregistered_frames().len(), 1);
    let batch = db.get_next_train_batch(None);
    assert_eq!(batch.camera.position[0], 1.0f32.to_bits());
    assert_eq!(batch.alpha_mode, AlphaMode::Masked);
    assert_eq!(batch.image.bytes, vec![70, 70, 70, 255]);
    assert_eq!(*batch.depth.unwrap(), vec![2.0f32.to_bits()]);

    db.add_pose(pose(7, 5.0));
    assert_eq!(db.total_view_count(), 1);
    assert_eq!(db.get_next_train_batch(None).camera.position[0], 5.0f32.to_bits());
    assert!(db.get_unregistered_frames().is_empty());
}

#[test]
fn every_third_frame_is_for_evaluation() {
    let mut db = database("random", Some(3));
    for id in 1..=7u64 {
        db.add_pose(pose(id, id as f32));
    }
    let mut eval: Vec<u64> = db.eval_poses().into_iter().map(|(id, _)| id).collect();
    eval.sort_unstable();
    assert_eq!(eval, vec![3, 6]);
    let mut train: Vec<u64> = db.train_poses().into_iter().map(|(id, _)| id).collect();
    train.sort_unstable();
    assert_eq!(train, vec![1, 2, 4, 5, 7]);
    assert_eq!(db.total_view_count(), 7);

    assert!(db.eval_views().is_empty());
    db.add_image(image(6, 60));
    db.add_image(image(5, 50));
    let views = db.eval_views();
    assert_eq!(views.len(), 1);
    assert_eq!(views[0].0, 6);
    assert_eq!(views[0].1.position[0], 6.0f32.to_bits());
    assert_eq!(views[0].2.bytes[0], 60);

    db.add_pose(pose(6, 9.0));
    assert_eq!(db.total_view_count(), 7);
    assert_eq!(db.eval_views()[0].1.position[0], 9.0f32.to_bits());
}

#[test]
fn a_split_of_zero_holds_nothing_back() {
    let mut db = database("random", Some(0));
    for id in 1..=4u64 {
        db.add_pose(pose(id, 0.0));
    }
    assert!(db.eval_poses().is_empty());
    assert_eq!(db.train_poses().len(), 4);
}

#[test]
fn the_weighted_database_hands_out_its_weights() {
    let mut db = database("weighted", None);
    for id in [1u64, 2] {
        db.add_pose(pose(id, id as f32));
        db.add_image(image(id, id as u8));
    }
    assert_eq!(db.get_unregistered_frames().len(), 2);
    assert_eq!(db.sampling_weights(), Some(vec![1, 1]));
    let first = db.get_next_train_batch(Some(0));
    let again = db.get_next_train_batch(Some(0));
    assert_eq!(first.camera, again.camera);
    assert_eq!(db.sampling_weights(), Some(vec![3, 1]));
    assert_ne!(db.get_next_train_batch(Some(1)).camera, first.camera);
}

#[test]
fn equal_seeds_sample_equally() {
    let picks = |seed: u64| {
        let mut db = IncrementalDatabase::new(unit_camera(), "random", None, seed);
        for id in 0..50u64 {
            db.add_pose(pose(id, id as f32));
            db.add_image(image(id, 0));
            db.get_unregistered_frames();
        }
        (0..20).map(|_| db.get_next_train_batch(None).camera.position[0]).collect::<Vec<u32>>()
    };
    assert_eq!(picks(42), picks(42));
    assert_eq!(picks(42), picks(42 + 256));
    assert_ne!(picks(42), picks(43));
}
