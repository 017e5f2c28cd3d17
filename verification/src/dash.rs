//! The concurrent collections of `dashmap`, with what the library relies on.
use crate::camera::Camera;
use crate::raster::RasterImage;
use dashmap::{DashMap, DashSet};
use std::collections::hash_map::RandomState;
use std::sync::Arc;
use vstd::prelude::*;

verus! {

/// Declares `dashmap::DashSet`.
#[verifier::external_type_specification]
#[verifier::external_body]
#[verifier::reject_recursive_types(K)]
#[verifier::reject_recursive_types(S)]
pub struct ExDashSet<K, S>(DashSet<K, S>);

/// Declares `dashmap::DashMap`.
#[verifier::external_type_specification]
#[verifier::external_body]
#[verifier::reject_recursive_types(K)]
#[verifier::reject_recursive_types(V)]
#[verifier::reject_recursive_types(S)]
pub struct ExDashMap<K, V, S>(DashMap<K, V, S>);

/// The cells that a set of grid cells holds.
pub uninterp spec fn cell_set(cells: DashSet<[i32; 3], RandomState>) -> Set<(i32, i32, i32)>;

/// `DashSet::new` gives a set that holds nothing.
#[verifier::external_body]
pub(crate) fn new_cells() -> (cells: DashSet<[i32; 3], RandomState>)
    ensures
        cell_set(cells) == Set::<(i32, i32, i32)>::empty(),
{
    DashSet::new()
}

/// `DashSet::insert` adds the cell and keeps what the set held. It returns
/// whether the cell was absent before.
#[verifier::external_body]
pub(crate) fn insert_cell(cells: &mut DashSet<[i32; 3], RandomState>, cell: (i32, i32, i32)) -> (fresh: bool)
    ensures
        cell_set(*final(cells)) == cell_set(*old(cells)).insert(cell),
        fresh == !cell_set(*old(cells)).contains(cell),
{
    cells.insert([cell.0, cell.1, cell.2])
}

/// `DashSet::contains` tells whether the set holds the cell.
#[verifier::external_body]
pub(crate) fn contains_cell(cells: &DashSet<[i32; 3], RandomState>, cell: (i32, i32, i32)) -> (found: bool)
    ensures
        found == cell_set(*cells).contains(cell),
{
    cells.contains(&[cell.0, cell.1, cell.2])
}

/// The frames that a set of frame ids holds.
pub uninterp spec fn frame_set(frames: DashSet<u64, RandomState>) -> Set<u64>;

/// `DashSet::new` gives a set that holds nothing.
#[verifier::external_body]
pub(crate) fn new_frames() -> (frames: DashSet<u64, RandomState>)
    ensures
        frame_set(frames) == Set::<u64>::empty(),
{
    DashSet::new()
}

/// `DashSet::insert` adds the frame and keeps what the set held. It returns
/// whether the frame was absent before.
#[verifier::external_body]
pub(crate) fn insert_frame(frames: &mut DashSet<u64, RandomState>, frame: u64) -> (fresh: bool)
    ensures
        frame_set(*final(frames)) == frame_set(*old(frames)).insert(frame),
        fresh == !frame_set(*old(frames)).contains(frame),
{
    frames.insert(frame)
}

/// `DashSet::iter` hands out every frame of the set once, in an order that
/// differs from run to run.
#[verifier::external_body]
pub(crate) fn list_frames(frames: &DashSet<u64, RandomState>) -> (list: Vec<u64>)
    ensures
        list@.no_duplicates(),
        forall|frame: u64| list@.contains(frame) <==> frame_set(*frames).contains(frame),
{
    frames.iter().map(|frame| *frame).collect()
}

/// The cameras that a map of poses holds.
pub uninterp spec fn pose_map(poses: DashMap<u64, Camera, RandomState>) -> Map<u64, Camera>;

/// `DashMap::new` gives a map that holds nothing.
#[verifier::external_body]
pub(crate) fn new_poses() -> (poses: DashMap<u64, Camera, RandomState>)
    ensures
        pose_map(poses).dom() == Set::<u64>::empty(),
{
    DashMap::new()
}

/// `DashMap::insert` maps the frame to the camera and keeps every other entry.
#[verifier::external_body]
pub(crate) fn insert_pose(poses: &mut DashMap<u64, Camera, RandomState>, frame: u64, camera: Camera)
    ensures
        pose_map(*final(poses)) == pose_map(*old(poses)).insert(frame, camera),
{
    poses.insert(frame, camera);
}

/// `DashMap::get` finds the camera of the frame, if the map has one.
#[verifier::external_body]
pub(crate) fn get_pose(poses: &DashMap<u64, Camera, RandomState>, frame: u64) -> (found: Option<Camera>)
    ensures
        found == (if pose_map(*poses).dom().contains(frame) {
            Some(pose_map(*poses)[frame])
        } else {
            None
        }),
{
    poses.get(&frame).map(|entry| *entry.value())
}

/// `DashMap::contains_key` tells whether the map has the frame.
#[verifier::external_body]
pub(crate) fn has_pose(poses: &DashMap<u64, Camera, RandomState>, frame: u64) -> (found: bool)
    ensures
        found == pose_map(*poses).dom().contains(frame),
{
    poses.contains_key(&frame)
}

/// `DashMap::is_empty` tells whether the map has no entry.
#[verifier::external_body]
pub(crate) fn no_poses(poses: &DashMap<u64, Camera, RandomState>) -> (empty: bool)
    ensures
        empty == (pose_map(*poses).dom() == Set::<u64>::empty()),
{
    poses.is_empty()
}

/// `DashMap::iter` hands out every entry of the map once, in an order that
/// differs from run to run.
#[verifier::external_body]
pub(crate) fn list_poses(poses: &DashMap<u64, Camera, RandomState>) -> (list: Vec<(u64, Camera)>)
    ensures
        forall|i: int, j: int| 0 <= i < j < list@.len() ==> (#[trigger] list@[i]).0 != (#[trigger] list@[j]).0,
        forall|i: int|
            0 <= i < list@.len() ==> pose_map(*poses).dom().contains((#[trigger] list@[i]).0)
                && pose_map(*poses)[list@[i].0] == list@[i].1,
        forall|frame: u64| #[trigger]
            pose_map(*poses).dom().contains(frame) ==> exists|i: int|
                0 <= i < list@.len() && (#[trigger] list@[i]).0 == frame,
{
    poses.iter().map(|entry| (*entry.key(), *entry.value())).collect()
}

/// The images that a map of frame images holds.
pub uninterp spec fn image_map(images: DashMap<u64, Arc<RasterImage>, RandomState>) -> Map<
    u64,
    Arc<RasterImage>,
>;

/// `DashMap::new` gives a map that holds nothing.
#[verifier::external_body]
pub(crate) fn new_images() -> (images: DashMap<u64, Arc<RasterImage>, RandomState>)
    ensures
        image_map(images).dom() == Set::<u64>::empty(),
{
    DashMap::new()
}

/// `DashMap::insert` maps the frame to the image and keeps every other entry.
#[verifier::external_body]
pub(crate) fn insert_image(
    images: &mut DashMap<u64, Arc<RasterImage>, RandomState>,
    frame: u64,
    raster: Arc<RasterImage>,
)
    ensures
        image_map(*final(images)) == image_map(*old(images)).insert(frame, raster),
{
    images.insert(frame, raster);
}

/// `DashMap::get` finds the image of the frame, if the map has one.
#[verifier::external_body]
pub(crate) fn get_image(images: &DashMap<u64, Arc<RasterImage>, RandomState>, frame: u64) -> (found: Option<
    Arc<RasterImage>,
>)
    ensures
        found == (if image_map(*images).dom().contains(frame) {
            Some(image_map(*images)[frame])
        } else {
            None
        }),
{
    images.get(&frame).map(|entry| Arc::clone(entry.value()))
}

/// The depth maps that a map of frame depths holds.
pub uninterp spec fn depth_map(depths: DashMap<u64, Arc<Vec<u32>>, RandomState>) -> Map<u64, Arc<Vec<u32>>>;

/// `DashMap::new` gives a map that holds nothing.
#[verifier::external_body]
pub(crate) fn new_depths() -> (depths: DashMap<u64, Arc<Vec<u32>>, RandomState>)
    ensures
        depth_map(depths).dom() == Set::<u64>::empty(),
{
    DashMap::new()
}

/// `DashMap::insert` maps the frame to the depths and keeps every other entry.
#[verifier::external_body]
pub(crate) fn insert_depth(
    depths: &mut DashMap<u64, Arc<Vec<u32>>, RandomState>,
    frame: u64,
    depth: Arc<Vec<u32>>,
)
    ensures
        depth_map(*final(depths)) == depth_map(*old(depths)).insert(frame, depth),
{
    depths.insert(frame, depth);
}

/// `DashMap::get` finds the depths of the frame, if the map has them.
#[verifier::external_body]
pub(crate) fn get_depth(depths: &DashMap<u64, Arc<Vec<u32>>, RandomState>, frame: u64) -> (found: Option<
    Arc<Vec<u32>>,
>)
    ensures
        found == (if depth_map(*depths).dom().contains(frame) {
            Some(depth_map(*depths)[frame])
        } else {
            None
        }),
{
    depths.get(&frame).map(|entry| Arc::clone(entry.value()))
}

} // verus!
