//! Cameras: a pose and the intrinsics that all views share.
use vstd::prelude::*;

verus! {

/// A pinhole camera. Positions and rotations map from the camera to the world;
/// the rotation is the quaternion `x, y, z, w`. All numbers are bit patterns:
/// binary32 for the pose and the centre, binary64 for the fields of view.
#[derive(Clone, Copy, Debug, PartialEq, Eq)]
pub struct Camera {
    pub position: [u32; 3],
    pub rotation: [u32; 4],
    pub fov_x: u64,
    pub fov_y: u64,
    pub center_uv: [u32; 2],
}

impl Camera {
    /// The camera moved to another pose.
    pub open spec fn posed(self, position: [u32; 3], rotation: [u32; 4]) -> Camera {
        Camera { position, rotation, ..self }
    }

    /// The same intrinsics at another pose.
    pub fn with_pose(&self, position: [u32; 3], rotation: [u32; 4]) -> (camera: Camera)
        ensures
            camera == self.posed(position, rotation),
            camera.position == position,
            camera.rotation == rotation,
            camera.fov_x == self.fov_x,
            camera.fov_y == self.fov_y,
            camera.center_uv == self.center_uv,
    {
        Camera {
            position,
            rotation,
            fov_x: self.fov_x,
            fov_y: self.fov_y,
            center_uv: self.center_uv,
        }
    }
}

} // verus!
