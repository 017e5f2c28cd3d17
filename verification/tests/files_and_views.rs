//! File formats, loading, zones, bridges and frustums.
use brush_incremental::bridge::{add_raw_frame, get_config, load_mask, AnchorRule, ConfigSource};
use brush_incremental::camera::Camera;
use brush_incremental::database::AlphaMode;
use brush_incremental::export::{export_files, stable_order, tum_trajectory, TumPose};
use brush_incremental::frustum::{ensure_capacity, CameraFrustumWidget, EVAL_COLOR, TRAIN_COLOR};
use brush_incremental::image_cache::ImageCache;
use brush_incremental::npy::ssim_map_file;
use brush_incremental::raster::RasterImage;
use brush_incremental::scene_loader::{batch_of_view, task_seeds, IncrementalSceneLoader, LoadableView, LoaderTask};
use brush_incremental::text::{before_first, behind_last, parse_usize, same_text, starts_with, to_decimal, to_signed_decimal};
use brush_incremental::zones::{AsyncZoneLayer, Cmd, ZoneStack};
use std::collections::HashSet;
use std::sync::Arc;

fn camera(x: u32) -> Camera {
    Camera { position: [x, 0, 0], rotation: [0; 4], fov_x: 0, fov_y: 0, center_uv: [0; 2] }
}

#[test]
fn numbers_as_text() {
    for n in [0u128, 7, 10, 99, 1_000_000_007, u128::MAX] {
        assert_eq!(to_decimal(n), n.to_string());
    }
    for n in [0i64, -1, i64::MIN, i64::MAX, 42] {
        assert_eq!(to_signed_decimal(n), n.to_string());
    }
    for s in ["", "+", "0", "+12", "-1", "12a", "18446744073709551615", "18446744073709551616", "007"] {
        assert_eq!(parse_usize(s), s.parse::<usize>().ok(), "{s}");
    }
    assert_eq!(behind_last("a-b-c", '-'), "c");
    assert_eq!(behind_last("abc", '-'), "abc");
    assert_eq!(before_first("12.34.png", '.'), "12");
    assert_eq!(before_first("1234", '.'), "1234");
    assert!(starts_with("sliding-3", "sliding"));
    assert!(!starts_with("slid", "sliding"));
    assert!(same_text("ab", "ab") && !same_text("ab", "abc"));
}

#[test]
fn exports_are_named_by_time() {
    let files = export_files(1_700_000_000_000_000_001);
    assert_eq!(files.ply, "1700000000000000001.ply");
    assert_eq!(files.poses, "1700000000000000001.tum");
    assert_eq!(files.meta_info, "1700000000000000001.json");
}

#[test]
fn trajectories_are_in_seconds() {
    let fields = |x: &str| vec![x.to_owned(), "0.0000000".to_owned()];
    let text = tum_trajectory(&vec![
        TumPose { frame_id: 1_500_000_000, fields: fields("1.0000000") },
        TumPose { frame_id: 7, fields: fields("2.0000000") },
        TumPose { frame_id: -2_000_000_001, fields: vec![] },
    ]);
    assert_eq!(text, "1.500000000 1.0000000 0.0000000\n0.000000007 2.0000000 0.0000000\n-2.000000001\n");
    assert_eq!(stable_order(&vec![5, -1, 5, 0, -1]), vec![1, 4, 3, 0, 2]);
}

#[test]
fn ssim_maps_are_numpy_files() {
    let data: Vec<u32> = [1.0f32, -2.5, 0.0].iter().map(|v| v.to_bits()).collect();
    let bytes = ssim_map_file(1, 3, &data);
    assert_eq!(&bytes[..8], b"\x93NUMPY\x01\x00");
    let header_len = u16::from_le_bytes([bytes[8], bytes[9]]) as usize;
    assert_eq!((10 + header_len) % 64, 0);
    let header = std::str::from_utf8(&bytes[10..10 + header_len]).unwrap();
    assert!(header.starts_with("{'descr': '<f4', 'fortran_order': False, 'shape': (1, 3), }"));
    assert!(header.ends_with(" \n"));
    assert_eq!(header.trim_end(), "{'descr': '<f4', 'fortran_order': False, 'shape': (1, 3), }");
    let body = &bytes[10 + header_len..];
    assert_eq!(body.len(), 12);
    assert_eq!(f32::from_le_bytes([body[4], body[5], body[6], body[7]]), -2.5);
}

fn loadable(name: &str, x: u32) -> Arc<LoadableView> {
    Arc::new(LoadableView { image_name: name.to_owned(), alpha_mode: AlphaMode::Transparent, camera: camera(x) })
}

#[test]
fn views_are_released_over_time() {
    let names = ["150.png", "100.png", "130.png", "110.png", "120.png", "170.png", "140.png"];
    let views: Vec<Arc<LoadableView>> = names.iter().enumerate().map(|(i, n)| loadable(n, i as u32)).collect();
    let mut loader = IncrementalSceneLoader::new(&views);
    assert_eq!(loader.released_count(), 5);
    let first: Vec<String> = (0..5).map(|i| loader.view(i).image_name.clone()).collect();
    assert_eq!(first, vec!["100.png", "110.png", "120.png", "130.png", "140.png"]);
    loader.release(49);
    assert_eq!(loader.released_count(), 5);
    loader.release(50);
    assert_eq!(loader.released_count(), 6);
    assert!(!loader.is_complete());
    loader.release(70);
    assert!(loader.is_complete());
    assert_eq!(loader.view(6).camera, camera(5));
    let cache = loader.new_cache();
    assert!(cache.get(6).is_none());
    let image = Arc::new(RasterImage { width: 1, height: 1, bytes: vec![0; 4] });
    let batch = batch_of_view(&loader.view(0), image.clone());
    assert!(Arc::ptr_eq(&batch.image, &image));
    assert_eq!(batch.alpha_mode, AlphaMode::Transparent);
}

#[test]
fn early_views_need_no_time() {
    let names = ["100.png", "100a.png", "100b.png", "100c.png", "100d.png", "130.png"];
    let views: Vec<Arc<LoadableView>> = names.iter().enumerate().map(|(i, n)| loadable(n, i as u32)).collect();
    let mut loader = IncrementalSceneLoader::new(&views);
    loader.release(29);
    assert_eq!(loader.released_count(), 5);
    loader.release(30);
    assert!(loader.is_complete());
}

#[test]
fn loaders_go_through_shuffled_views() {
    let mut task = LoaderTask::new(5);
    let few: Vec<usize> = (0..4).map(|_| task.next_index(4)).collect();
    assert_eq!(few.iter().copied().collect::<HashSet<usize>>(), HashSet::from([0, 1, 2, 3]));
    let mut task = LoaderTask::new(5);
    let epoch: Vec<usize> = (0..20).map(|_| task.next_index(100)).collect();
    assert_eq!(epoch.iter().collect::<HashSet<&usize>>().len(), 20);
    assert_ne!(epoch, (0..20).collect::<Vec<usize>>());
    let mut again = LoaderTask::new(5);
    assert_eq!(epoch, (0..20).map(|_| again.next_index(100)).collect::<Vec<usize>>());
    let mut other = LoaderTask::new(6);
    assert_ne!(epoch, (0..20).map(|_| other.next_index(100)).collect::<Vec<usize>>());
    assert_eq!(task_seeds(u64::MAX, 2), vec![u64::MAX, 0, 1, 2]);
}

#[test]
fn the_cache_keeps_what_fits() {
    let mut cache = ImageCache::new(3);
    let small = Arc::new(RasterImage { width: 1, height: 1, bytes: vec![1; 4] });
    let other = Arc::new(RasterImage { width: 1, height: 1, bytes: vec![2; 4] });
    cache.insert(1, small.clone());
    cache.insert(1, other);
    assert!(Arc::ptr_eq(&cache.get(1).unwrap(), &small));
    assert!(cache.get(0).is_none());
}

#[test]
fn zones_close_with_everything_inside() {
    let layer = AsyncZoneLayer;
    let open = layer.on_new_span(3, "render", None, None);
    assert!(matches!(open, Cmd::Open { id: 3, name: "render", file: "<unknown>", line: 0 }));
    let mut stack = ZoneStack::new();
    assert_eq!(stack.apply(open, false), 0);
    assert_eq!(stack.apply(open, true), 1);
    assert_eq!(stack.apply(layer.on_new_span(4, "step", Some("a.rs"), Some(7)), true), 2);
    assert_eq!(stack.apply(layer.on_new_span(5, "load", Some("a.rs"), Some(8)), true), 3);
    assert_eq!(stack.apply(layer.on_close(9), true), 3);
    assert_eq!(stack.apply(layer.on_close(4), true), 1);
    assert_eq!(stack.apply(layer.on_close(5), true), 1);
    assert_eq!(stack.apply(layer.on_close(3), true), 0);
}

#[test]
fn masks_must_fit_the_camera() {
    let mask = |w: u32, h: u32| Some(RasterImage { width: w, height: h, bytes: vec![1; (w * h) as usize] });
    assert_eq!(load_mask(None, 2, 2), Ok(None));
    assert_eq!(load_mask(mask(2, 1), 2, 1), Ok(Some(vec![1, 1])));
    let error = load_mask(mask(2, 1), 1, 2).unwrap_err();
    assert_eq!(error.message(), "mask resolution 2x1 doesn't match camera resolution 1x2");
}

#[test]
fn settings_come_from_the_named_file() {
    assert_eq!(get_config("", true), ConfigSource::Defaults);
    assert_eq!(get_config("a.json", true), ConfigSource::File);
    assert_eq!(get_config("a.json", false), ConfigSource::NewFile);
}

#[test]
fn badly_reconstructed_frames_become_anchors() {
    let rule = AnchorRule {
        unreconstructed_area_threshold: 0.2f32.to_bits(),
        max_ssim_new_host: 0.7f32.to_bits(),
    };
    assert!(rule.is_anchor(0.3f32.to_bits(), 0.9f32.to_bits()));
    assert!(rule.is_anchor(0.1f32.to_bits(), 0.6f32.to_bits()));
    assert!(!rule.is_anchor(0.2f32.to_bits(), 0.7f32.to_bits()));
    let image = Arc::new(RasterImage { width: 1, height: 1, bytes: vec![0; 4] });
    assert!(add_raw_frame(1, camera(0), image.clone(), Some(Arc::new(vec![0]))).is_host_frame);
    assert!(!add_raw_frame(1, camera(0), image, None).is_host_frame);
}

#[test]
fn frustums_are_coloured_by_use() {
    let mut widget = CameraFrustumWidget::new();
    widget.set_dataset(&vec![camera(1), camera(2)], &Some(vec![camera(3)]));
    let drawn: Vec<(u32, [u32; 4])> = widget.instances().iter().map(|i| (i.camera.position[0], i.color)).collect();
    assert_eq!(drawn, vec![(1, TRAIN_COLOR), (2, TRAIN_COLOR), (3, EVAL_COLOR)]);
    assert_eq!(TRAIN_COLOR.map(f32::from_bits), [1.0, 0.55, 0.1, 0.95]);
    assert_eq!(EVAL_COLOR.map(f32::from_bits), [0.2, 0.7, 1.0, 0.95]);
    widget.set_dataset(&vec![camera(4)], &None);
    assert_eq!(widget.instances().len(), 1);
    widget.clear();
    assert!(widget.instances().is_empty());
    assert_eq!(ensure_capacity(64, 64), None);
    assert_eq!(ensure_capacity(64, 65), Some(128));
    assert_eq!(ensure_capacity(64, 1000), Some(1024));
    assert_eq!(ensure_capacity(0, 5), Some(64));
    assert_eq!(ensure_capacity(0, 1024), Some(1024));
}
