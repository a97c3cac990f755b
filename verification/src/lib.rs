//! A fixed-point software rasterizer: triangles in screen space are scanned
//! into fragments, shaded per surface type and composited into a framebuffer
//! with a depth test. Every scalar that a renderer would keep in floating
//! point is held as a Q16.16 integer, so that coverage, interpolation and
//! visibility are exact and proved.

pub mod color;
pub mod coverage;
pub mod fixed;
pub mod fragment;
pub mod framebuffer;
pub mod line;
pub mod matrix;
pub mod mesh;
pub mod planet;
pub mod render;
pub mod shaders;
pub mod triangle;
pub mod uniforms;
pub mod vector;
pub mod vertex;
