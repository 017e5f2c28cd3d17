//! Incremental reconstruction of Gaussian-splat scenes: the bookkeeping and
//! the decisions of the training loops, verified.
use vstd::prelude::*;

pub mod bridge;
pub mod camera;
pub mod chance;
pub mod config;
pub mod context;
pub mod dash;
pub mod database;
pub mod densify;
pub mod export;
pub mod frustum;
pub mod ieee;
pub mod image_cache;
pub mod landmarks;
pub mod npy;
pub mod pixels;
pub mod raster;
pub mod scene_loader;
pub mod single_view;
pub mod stream;
pub mod stream_run;
pub mod text;
pub mod texture;
pub mod trainer;
pub mod transforms;
pub mod ui;
pub mod view_sampling;
pub mod zones;

verus! {

} // verus!
