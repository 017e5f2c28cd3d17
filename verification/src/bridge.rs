//! What a host program hands to the trainer.
use crate::camera::Camera;
use crate::ieee::{less32, lt32};
use crate::raster::RasterImage;
use crate::text::{decimal, to_decimal};
use crate::trainer::{FrameId, ViewData};
use std::sync::Arc;
use vstd::prelude::*;

verus! {

/// A mask that does not fit the camera.
#[derive(Clone, Copy, Debug, PartialEq, Eq)]
pub struct MaskMismatch {
    pub mask_width: u32,
    pub mask_height: u32,
    pub img_width: u32,
    pub img_height: u32,
}

/// A size as text.
pub open spec fn size_text(width: u32, height: u32) -> Seq<char> {
    decimal(width as nat) + "x"@ + decimal(height as nat)
}

impl MaskMismatch {
    /// What is wrong, in words.
    pub fn message(&self) -> (text: String)
        ensures
            text@ == "mask resolution "@ + size_text(self.mask_width, self.mask_height)
                + " doesn't match camera resolution "@ + size_text(self.img_width, self.img_height),
    {
        let mut text = String::from_str("mask resolution ");
        text.append(to_decimal(self.mask_width as u128).as_str());
        text.append("x");
        text.append(to_decimal(self.mask_height as u128).as_str());
        text.append(" doesn't match camera resolution ");
        text.append(to_decimal(self.img_width as u128).as_str());
        text.append("x");
        text.append(to_decimal(self.img_height as u128).as_str());
        assert(text@ =~= "mask resolution "@ + size_text(self.mask_width, self.mask_height)
            + " doesn't match camera resolution "@ + size_text(self.img_width, self.img_height));
        text
    }
}

/// The mask of a camera, if there is one: one byte per pixel.
pub fn load_mask(mask: Option<RasterImage>, img_width: u32, img_height: u32) -> (result: Result<
    Option<Vec<u8>>,
    MaskMismatch,
>)
    ensures
        match mask {
            None => result == Ok::<Option<Vec<u8>>, MaskMismatch>(None),
            Some(raster) => if raster.width == img_width && raster.height == img_height {
                result == Ok::<Option<Vec<u8>>, MaskMismatch>(Some(raster.bytes))
            } else {
                result == Err::<Option<Vec<u8>>, MaskMismatch>(
                    MaskMismatch {
                        mask_width: raster.width,
                        mask_height: raster.height,
                        img_width,
                        img_height,
                    },
                )
            },
        },
{
    match mask {
        None => Ok(None),
        Some(raster) => {
            if raster.width == img_width && raster.height == img_height {
                Ok(Some(raster.bytes))
            } else {
                Err(
                    MaskMismatch {
                        mask_width: raster.width,
                        mask_height: raster.height,
                        img_width,
                        img_height,
                    },
                )
            }
        },
    }
}

/// Where settings come from.
#[derive(Clone, Copy, Debug, PartialEq, Eq)]
pub enum ConfigSource {
    /// No file was named: the defaults.
    Defaults,
    /// The file exists: what it holds.
    File,
    /// The file does not exist: the defaults, which are written to it.
    NewFile,
}

/// Where the settings come from.
pub fn get_config(config_path: &str, exists: bool) -> (source: ConfigSource)
    ensures
        source == (if config_path@.len() == 0 {
            ConfigSource::Defaults
        } else if exists {
            ConfigSource::File
        } else {
            ConfigSource::NewFile
        }),
{
    if config_path.unicode_len() == 0 {
        ConfigSource::Defaults
    } else if exists {
        ConfigSource::File
    } else {
        ConfigSource::NewFile
    }
}

/// When a frame becomes an anchor.
#[derive(Clone, Copy, Debug, PartialEq, Eq)]
pub struct AnchorRule {
    pub unreconstructed_area_threshold: u32,
    pub max_ssim_new_host: u32,
}

impl AnchorRule {
    /// Whether a frame becomes an anchor: too much of it is not reconstructed
    /// yet, or it is reconstructed badly.
    pub fn is_anchor(&self, unreconstructed_area: u32, ssim: u32) -> (anchor: bool)
        ensures
            anchor == (less32(self.unreconstructed_area_threshold, unreconstructed_area) || less32(
                ssim,
                self.max_ssim_new_host,
            )),
    {
        lt32(self.unreconstructed_area_threshold, unreconstructed_area) || lt32(ssim, self.max_ssim_new_host)
    }
}

/// The view of a raw frame. Only anchors have depth, and they get Gaussians of
/// their own.
pub fn add_raw_frame(frame_id: FrameId, camera: Camera, raster: Arc<RasterImage>, depth: Option<Arc<Vec<u32>>>) -> (view:
    ViewData)
    ensures
        view == (ViewData {
            frame_id,
            camera,
            image: raster,
            depth,
            is_eval: false,
            is_host_frame: depth.is_some(),
        }),
{
    let is_host_frame: bool = depth.is_some();
    ViewData { frame_id, camera, image: raster, depth, is_eval: false, is_host_frame }
}

/// A size is written as width and height in decimal with an `x` between them.
pub proof fn lemma_size_text(width: u32, height: u32)
    ensures
        size_text(width, height) == decimal(width as nat) + seq!['x'] + decimal(height as nat),
{
    reveal_strlit("x");
    assert("x"@ =~= seq!['x']);
}

} // verus!
