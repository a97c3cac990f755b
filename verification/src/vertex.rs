//! Vertices: what a mesh gives in object space, and where the vertex stage
//! put it on the screen.

use crate::color::Color;
use crate::vector::Vec2;
use crate::vector::Vec3;
use vstd::prelude::*;

verus! {

/// One corner of a triangle. The two `transformed_` fields hold the
/// screen-space position (x and y in pixels, z the depth) and normal; until
/// the vertex stage has filled them in they repeat the object-space values.
#[derive(Clone, Copy, Debug, PartialEq, Eq, Structural)]
pub struct Vertex {
    pub position: Vec3,
    pub normal: Vec3,
    pub tex_coords: Vec2,
    pub color: Color,
    pub transformed_position: Vec3,
    pub transformed_normal: Vec3,
}

impl Vertex {
    /// A black vertex in object space, not yet transformed.
    pub fn new(position: Vec3, normal: Vec3, tex_coords: Vec2) -> (v: Vertex)
        ensures
            v == (Vertex {
                position,
                normal,
                tex_coords,
                color: Color { r: 0, g: 0, b: 0 },
                transformed_position: position,
                transformed_normal: normal,
            }),
    {
        Vertex {
            position,
            normal,
            tex_coords,
            color: Color::black(),
            transformed_position: position,
            transformed_normal: normal,
        }
    }

    /// Records where the vertex stage put this vertex on the screen. The
    /// object-space fields stay as they are.
    pub fn set_transformed(&mut self, position: Vec3, normal: Vec3)
        ensures
            *final(self) == (Vertex {
                transformed_position: position,
                transformed_normal: normal,
                ..*old(self)
            }),
    {
        self.transformed_position = position;
        self.transformed_normal = normal;
    }
}

} // verus!
