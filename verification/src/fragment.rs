//! Fragments: the samples that a triangle leaves on the pixels it covers.

use crate::color::lerp_color;
use crate::color::scaled_color;
use crate::color::Color;
use crate::vector::Vec3;
use vstd::prelude::*;

verus! {

/// A pixel by column and row, counted in whole pixels.
#[derive(Clone, Copy, Debug, PartialEq, Eq, Structural)]
pub struct Pixel {
    pub x: i32,
    pub y: i32,
}

/// One triangle's sample on one pixel: where it is, how deep, which way the
/// surface faces there, how much light it gets (0..=1 in Q16.16) and which
/// point of the object it shows.
#[derive(Clone, Copy, Debug, PartialEq, Eq, Structural)]
pub struct Fragment {
    pub position: Pixel,
    pub color: Color,
    pub depth: i32,
    pub normal: Vec3,
    pub intensity: i32,
    pub vertex_position: Vec3,
}

impl Fragment {
    /// The fragment on pixel `(x, y)` with the attributes given.
    pub fn new(
        x: i32,
        y: i32,
        color: Color,
        depth: i32,
        normal: Vec3,
        intensity: i32,
        vertex_position: Vec3,
    ) -> (f: Fragment)
        ensures
            f == (Fragment {
                position: Pixel { x, y },
                color,
                depth,
                normal,
                intensity,
                vertex_position,
            }),
    {
        Fragment { position: Pixel { x, y }, color, depth, normal, intensity, vertex_position }
    }

    /// Dims the color by the fragment's own intensity.
    pub fn apply_lighting(&mut self)
        ensures
            *final(self) == (Fragment {
                color: scaled_color(old(self).color, old(self).intensity),
                ..*old(self)
            }),
    {
        let illuminated_color = self.color.scale(self.intensity);
        self.color = illuminated_color;
    }

    /// Moves the color the fraction `t` of the way toward `other`.
    pub fn interpolate_color(&mut self, other: &Color, t: i32)
        ensures
            *final(self) == (Fragment {
                color: lerp_color(old(self).color, *other, t),
                ..*old(self)
            }),
    {
        self.color = self.color.lerp(other, t);
    }

    /// A copy of the fragment.
    pub fn clone_fragment(&self) -> (f: Fragment)
        ensures
            f == *self,
    {
        Fragment {
            position: self.position,
            color: self.color,
            depth: self.depth,
            normal: self.normal,
            intensity: self.intensity,
            vertex_position: self.vertex_position,
        }
    }
}

} // verus!
