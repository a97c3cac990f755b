//! What one draw call hands to every shader.

use crate::matrix::Mat4;
use vstd::prelude::*;

verus! {

/// The context of one draw call, the same for every vertex and fragment of
/// it: the four transforms that lead from object space to the screen, and
/// the frame-time counter.
#[derive(Clone, Copy, Debug, PartialEq, Eq, Structural)]
pub struct Uniforms {
    /// From object space to the world.
    pub model_matrix: Mat4,
    /// From the world to the camera.
    pub view_matrix: Mat4,
    /// From the camera to clip space.
    pub projection_matrix: Mat4,
    /// From normalized device coordinates to pixels.
    pub viewport_matrix: Mat4,
    /// The frame-time counter.
    pub time: u32,
}

impl Uniforms {
    /// The context of a draw call with the transforms and frame time given.
    pub fn new(
        model_matrix: Mat4,
        view_matrix: Mat4,
        projection_matrix: Mat4,
        viewport_matrix: Mat4,
        time: u32,
    ) -> (u: Uniforms)
        ensures
            u == (Uniforms { model_matrix, view_matrix, projection_matrix, viewport_matrix, time }),
    {
        Uniforms { model_matrix, view_matrix, projection_matrix, viewport_matrix, time }
    }
}

} // verus!
