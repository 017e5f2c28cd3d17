//! Choosing pixels and turning them into Gaussians.
use brush_incremental::densify::DensifySampler;
use brush_incremental::ieee::{le32, lt32, lt64, zero64};
use brush_incremental::landmarks::{
    add_in_free_cells, claim_free_cells, compute_occupancy_grid, list_pixels, mark_added, pack_points, project_pixels,
    repeated, unmarked, Occupant, OccupancyGrid, ProjectedPixel, Projection,
};
use brush_incremental::pixels::{
    densify_candidates, injection_pixels, pixel_coords, pixel_index, pixel_weights, pixels_with_depth, sample_count,
    step_strided_grid, strided_depth_points, texture_pixels,
};
use brush_incremental::raster::{copy_into_rgba_image, count_transparent, interleave_mask};
use brush_incremental::single_view::{
    csv_row, init_splat_from_depth, init_splat_from_texture, injection_draws, points_to_splats, refine_due,
    ssim_injection_points, texture_draws,
};
use brush_incremental::texture::{box_blur, structure_tensor_texture};
use brush_incremental::raster::RasterImage;

fn bits(values: &[f32]) -> Vec<u32> {
    values.iter().map(|v| v.to_bits()).collect()
}

fn at(idx: usize) -> Projection {
    Projection {
        cell: (idx as i32 / 2, 0, 0),
        mean: [(idx as f32).to_bits(), (idx as f32 + 0.25).to_bits(), (idx as f32 + 0.5).to_bits()],
        color: (idx as f32 * 10.0).to_bits(),
        log_scale: (-(idx as f32)).to_bits(),
    }
}

fn point(idx: usize) -> ProjectedPixel {
    let p = at(idx);
    ProjectedPixel { idx, cell: p.cell, mean: p.mean, color: p.color, log_scale: p.log_scale }
}

#[test]
fn comparisons_agree_with_the_processor() {
    let values = [
        0.0f32, -0.0, 1.0, -1.0, 0.01, 0.1, f32::MIN_POSITIVE, 1.0e-45, -1.0e-45, f32::MAX, f32::MIN, f32::INFINITY,
        f32::NEG_INFINITY, f32::NAN, -f32::NAN,
    ];
    for a in values {
        for b in values {
            assert_eq!(lt32(a.to_bits(), b.to_bits()), a < b, "{a} < {b}");
            assert_eq!(le32(a.to_bits(), b.to_bits()), a <= b, "{a} <= {b}");
            let (c, d) = (a as f64, b as f64);
            assert_eq!(lt64(c.to_bits(), d.to_bits()), c < d, "{c} < {d}");
        }
        assert_eq!(zero64((a as f64).to_bits()), a as f64 == 0.0);
    }
}

#[test]
fn pixels_are_numbered_row_by_row() {
    assert_eq!(pixel_coords(7, 3), (1, 2));
    assert_eq!(pixel_index(1, 2, 3), 7);
}

#[test]
fn holes_in_the_depth_are_skipped() {
    let depth = bits(&[0.0, 0.01, 0.010001, 5.0, f32::NAN, -3.0]);
    assert_eq!(pixels_with_depth(&depth, 6), vec![2, 3, 4]);
}

#[test]
fn both_strided_grids_agree() {
    let (w, h) = (7, 5);
    let depth: Vec<u32> = (0..w * h).map(|i| if i % 4 == 3 { 0.0f32 } else { 1.0 }.to_bits()).collect();
    for stride in 1..9 {
        let tested = strided_depth_points(&depth, w, h, stride);
        assert_eq!(tested, step_strided_grid(&depth, w, h, stride));
    }
    assert_eq!(strided_depth_points(&depth, w, h, 3), vec![0, 6, 21, 24]);
    assert_eq!(strided_depth_points(&depth, w, h, 0), vec![0]);
}

#[test]
fn densification_leaves_good_pixels_alone() {
    let added = vec![true, false, false, false, false];
    let depth = bits(&[1.0, 0.05, 1.0, 1.0, 0.1]);
    let ssim = bits(&[0.0, 0.0, 0.9, 0.2, 0.5]);
    assert_eq!(densify_candidates(&added, &depth, &ssim, 0.5f32.to_bits(), 5), vec![3]);
    assert_eq!(densify_candidates(&added, &depth, &ssim, 0.6f32.to_bits(), 5), vec![3, 4]);
    assert_eq!(injection_pixels(&added, &depth, 5), vec![2, 3, 4]);
    assert_eq!(texture_pixels(&added, &depth, 5), vec![1, 2, 3, 4]);
}

#[test]
fn no_more_samples_than_positive_weights() {
    let weights = bits(&[0.0, 1.0, -1.0, 2.0, f32::NAN, 0.5]);
    assert_eq!(sample_count(&weights, 10), 3);
    assert_eq!(sample_count(&weights, 2), 2);
    assert_eq!(pixel_weights(&vec![1, 3], 5, &|i| i as u32 * 10), vec![0, 10, 0, 30, 0]);
}

#[test]
fn draws_take_each_pixel_once() {
    let mut added = vec![false; 6];
    let candidates = vec![0, 2, 4, 5];
    let weights = bits(&[1.0, 0.0, 1.0, 2.0]);
    let mut sampler = DensifySampler::new(&candidates, &weights, 2, &added);
    assert_eq!(sampler.candidate_weights(), &bits(&[1.0, 1.0, 2.0]));
    assert!(!sampler.is_done());
    assert!(sampler.offer(1, &mut added));
    assert!(!sampler.offer(1, &mut added));
    sampler.take_draws(&vec![1, 1, 2, 0], &mut added);
    assert!(sampler.is_done());
    assert_eq!(added, vec![false, false, false, false, true, true]);
    assert_eq!(sampler.into_sampled(), vec![4, 5]);
}

#[test]
fn a_cell_takes_one_point() {
    let apart = |_: [u32; 3], _: [u32; 3]| false;
    let mut grid = compute_occupancy_grid(&vec![Occupant { cell: (1, 0, 0), mean: [0; 3] }]);
    assert!(!grid.is_free((1, 0, 0)));
    assert!(grid.is_free((0, 0, 0)));
    let points: Vec<ProjectedPixel> = (0..6).map(point).collect();
    let kept = claim_free_cells(&mut grid, &points, &apart);
    assert_eq!(kept, vec![point(0), point(4)]);
    assert!(claim_free_cells(&mut grid, &points, &apart).is_empty());

    let mut fresh = OccupancyGrid::new();
    fresh.insert(Occupant { cell: (2, 0, 0), mean: [0; 3] });
    let mut added = unmarked(6);
    let kept = add_in_free_cells(&mut fresh, &vec![1, 2, 3, 5], &mut added, &at, &apart);
    assert_eq!(list_pixels(&kept), vec![1, 2]);
    assert_eq!(added, vec![false, true, true, false, false, false]);
}

#[test]
fn points_across_a_border_keep_their_distance() {
    let distance = |a: [u32; 3], b: [u32; 3]| {
        let (a, b) = (a.map(f32::from_bits), b.map(f32::from_bits));
        (0..3).map(|k| (a[k] - b[k]).powi(2)).sum::<f32>().sqrt()
    };
    let near = |a: [u32; 3], b: [u32; 3]| distance(a, b) < 1.0;
    let at_x = |idx: usize, x: f32| ProjectedPixel {
        idx,
        cell: (x.floor() as i32, 0, 0),
        mean: [x, 0.0, 0.0].map(f32::to_bits),
        color: 0,
        log_scale: 0,
    };
    let mut grid = compute_occupancy_grid(&vec![Occupant { cell: (0, 0, 0), mean: [0.9f32, 0.0, 0.0].map(f32::to_bits) }]);
    assert!(grid.is_crowded([1.1f32, 0.0, 0.0].map(f32::to_bits), &near));
    let points = vec![at_x(0, 1.1), at_x(1, 1.95), at_x(2, 2.2), at_x(3, 2.95), at_x(4, 5.0)];
    let kept = claim_free_cells(&mut grid, &points, &near);
    assert_eq!(list_pixels(&kept), vec![1, 3, 4]);
}

#[test]
fn points_are_packed_in_order() {
    let points = project_pixels(&vec![1, 2], &at);
    let arrays = pack_points(&points, true);
    assert_eq!(arrays.means, bits(&[1.0, 1.25, 1.5, 2.0, 2.25, 2.5]));
    assert_eq!(arrays.sh_coeffs, bits(&[10.0, 10.0, 10.0, 20.0, 20.0, 20.0]));
    assert_eq!(arrays.log_scales, Some(bits(&[-1.0, -1.0, -1.0, -2.0, -2.0, -2.0])));
    assert_eq!(pack_points(&points, false).log_scales, None);
    let mut added = vec![false; 4];
    mark_added(&mut added, &vec![3, 0, 3]);
    assert_eq!(added, vec![true, false, false, true]);
    assert_eq!(repeated(7, 3), vec![7, 7, 7]);
}

#[test]
fn images_get_their_mask_as_alpha() {
    assert_eq!(interleave_mask(&vec![1, 2], &vec![255, 0]), vec![1, 1, 1, 255, 2, 2, 2, 0]);
    let samples = [0x1234u16, 0xFFFF];
    let masked = copy_into_rgba_image(&samples, &Some(vec![9, 0]), 2, 1);
    assert_eq!((masked.width, masked.height), (2, 1));
    assert_eq!(masked.bytes, vec![0x12, 0x12, 0x12, 9, 0xFF, 0xFF, 0xFF, 0]);
    let opaque = copy_into_rgba_image(&samples, &None, 1, 2);
    assert_eq!(opaque.bytes, vec![0x12, 0x12, 0x12, 255, 0xFF, 0xFF, 0xFF, 255]);
    assert_eq!(count_transparent(&vec![0x05FFFFFF, 0x06000000, 0, 0xFF000000]), 2);
}

#[test]
fn single_view_splats_start_on_a_grid() {
    let depth = bits(&[1.0, 1.0, 0.0, 1.0, 1.0, 1.0]);
    let mut added = unmarked(6);
    let points = init_splat_from_depth(&depth, 3, 2, 2, &mut added, at);
    assert_eq!(points, vec![point(0)]);
    assert_eq!(added, vec![true, false, false, false, false, false]);
    let plan = injection_draws(&depth, &added, 100, |i| (i as f32).to_bits());
    assert_eq!(plan.weights, bits(&[0.0, 1.0, 0.0, 3.0, 4.0, 5.0]));
    assert_eq!(plan.n, 4);
    let drawn = ssim_injection_points(&vec![4, 1], &mut added, at);
    assert_eq!(drawn, vec![point(4), point(1)]);
    let plan = texture_draws(&depth, &added, 1, |i| (i as f32).to_bits());
    assert_eq!(plan.weights, bits(&[0.0, 0.0, 0.0, 3.0, 0.0, 5.0]));
    assert_eq!(plan.n, 1);
    assert_eq!(init_splat_from_texture(&vec![5], &mut added, at), vec![point(5)]);
    assert_eq!(added, vec![true, true, false, false, true, true]);
}

#[test]
fn neighbours_may_decide_scales() {
    let points = vec![point(1), point(2)];
    let own = points_to_splats(&points, 0.5f32.to_bits(), None);
    assert_eq!(own.arrays.log_scales.unwrap()[3], (-2.0f32).to_bits());
    assert_eq!(own.raw_opacities, bits(&[0.5, 0.5]));
    let near = points_to_splats(&points, 0, Some(vec![1, 2, 3, 4, 5, 6]));
    assert_eq!(near.arrays.log_scales, Some(vec![1, 2, 3, 4, 5, 6]));
}

#[test]
fn refinement_comes_at_multiples() {
    assert!(refine_due(200, 100));
    assert!(!refine_due(201, 100));
    assert!(!refine_due(1, 0));
    assert_eq!(csv_row(&vec!["1".to_owned(), "0.5".to_owned(), "x".to_owned()]), "1,0.5,x\n");
    assert_eq!(csv_row(&vec![]), "\n");
}

#[test]
fn blurring_averages_what_is_around() {
    let mean = |values: Vec<u32>| {
        let sum: f32 = values.iter().map(|v| f32::from_bits(*v)).sum();
        (sum / values.len() as f32).to_bits()
    };
    let data = bits(&[1.0, 2.0, 3.0, 4.0, 5.0, 6.0]);
    assert_eq!(box_blur(&data, 3, 2, 0, &mean), data);
    assert_eq!(box_blur(&data, 3, 2, 1, &mean), bits(&[3.0, 3.5, 4.0, 3.0, 3.5, 4.0]));
    assert_eq!(box_blur(&data, 3, 2, 9, &mean), bits(&[3.5; 6]));
    let count = |values: Vec<u32>| values.len() as u32;
    assert_eq!(box_blur(&vec![0; 9], 3, 3, 1, &count), vec![4, 6, 4, 6, 9, 6, 4, 6, 4]);
}

#[test]
fn flat_images_have_no_texture() {
    let level = |rgb: [u8; 3]| (rgb[0] as f32).to_bits();
    let tensor = |around: [u32; 4]| {
        let v = around.map(f32::from_bits);
        let (ix, iy) = ((v[1] - v[0]) * 0.5, (v[3] - v[2]) * 0.5);
        [(ix * ix).to_bits(), (iy * iy).to_bits(), (ix * iy).to_bits()]
    };
    let mean = |values: Vec<u32>| {
        let sum: f32 = values.iter().map(|v| f32::from_bits(*v)).sum();
        (sum / values.len() as f32).to_bits()
    };
    let det = |s: [u32; 3]| {
        let v = s.map(f32::from_bits);
        (v[0] * v[1] - v[2] * v[2]).max(0.0).to_bits()
    };
    let flat = RasterImage { width: 3, height: 3, bytes: vec![50; 36] };
    assert_eq!(structure_tensor_texture(&flat, 1, level, tensor, mean, det), bits(&[0.0; 9]));
    let mut bytes = vec![0u8; 36];
    bytes[16] = 8;
    let spot = RasterImage { width: 3, height: 3, bytes };
    let texture = structure_tensor_texture(&spot, 0, level, tensor, mean, det);
    assert_eq!(texture, bits(&[0.0; 9]));
    let smooth = structure_tensor_texture(&spot, 1, level, tensor, mean, det);
    let expected = (32.0f32 / 9.0) * (32.0f32 / 9.0);
    assert_eq!(f32::from_bits(smooth[4]), expected);
}
