//! The shaders. The vertex shader carries a vertex from object space to the
//! screen. The fragment shaders give a fragment its color: one base color
//! per kind of surface, dimmed by the light that the fragment gets.

use crate::color::scaled_color;
use crate::color::Color;
use crate::fixed::div_floor;
use crate::fixed::ONE;
use crate::fragment::Fragment;
use crate::framebuffer::DEPTH_INFINITY;
use crate::matrix::apply;
use crate::matrix::carried_normal;
use crate::matrix::clamp32;
use crate::matrix::clamp_to_i32;
use crate::matrix::divided;
use crate::matrix::homogeneous;
use crate::matrix::perspective_divide;
use crate::matrix::within;
use crate::matrix::Point4;
use crate::matrix::Wide4;
use crate::uniforms::Uniforms;
use crate::vector::Vec3;
use crate::vertex::Vertex;
use rand::rngs::StdRng;
use rand::Rng;
use rand::SeedableRng;
use vstd::prelude::*;

verus! {

/// The kinds of surface, one per shader.
#[derive(Clone, Copy, Debug, PartialEq, Eq, Structural)]
pub enum Shader {
    Sun,
    RockyPlanet,
    GasGiant,
    SmallGasPlanet,
    BlackAndWhite,
}

/// Where the transforms of a draw call put an object-space position in clip
/// space: model first, then view, then projection.
pub open spec fn clip_position(u: Uniforms, p: Vec3) -> Point4 {
    apply(u.projection_matrix, apply(u.view_matrix, apply(u.model_matrix, homogeneous(p))))
}

/// A depth on the screen: held to the range of `i32` and below infinity, so
/// that no vertex is as far as a pixel that nothing was drawn on.
pub open spec fn screen_depth(z: int) -> i32 {
    if z >= DEPTH_INFINITY {
        (DEPTH_INFINITY - 1) as i32
    } else {
        clamp32(z)
    }
}

/// Where an object-space position lands on the screen: its clip-space
/// coordinates divided by their `w`, then carried to pixels by the viewport
/// transform. A position whose `w` is zero lies on the plane of the camera
/// and has no place on the screen; what stands for its place is what
/// `divided` gives for a divisor of zero, carried to pixels like any other.
pub open spec fn screen_position(u: Uniforms, p: Vec3) -> Vec3 {
    let c = clip_position(u, p);
    let n = Point4 {
        x: divided(c.x, c.w),
        y: divided(c.y, c.w),
        z: divided(c.z, c.w),
        w: ONE as int,
    };
    let s = apply(u.viewport_matrix, n);
    Vec3 { x: clamp32(s.x), y: clamp32(s.y), z: screen_depth(s.z) }
}

/// Whether the transforms of a draw call put a vertex on the plane of the
/// camera, where its clip-space `w` is zero.
pub open spec fn lies_on_camera_plane(v: Vertex, u: Uniforms) -> bool {
    clip_position(u, v.position).w == 0
}

/// What the vertex shader makes of a vertex: the same vertex with its screen
/// position and carried normal filled in.
pub open spec fn shaded_vertex(v: Vertex, u: Uniforms) -> Vertex {
    Vertex {
        transformed_position: screen_position(u, v.position),
        transformed_normal: carried_normal(u.model_matrix, v.normal),
        ..v
    }
}

/// The number that the standard generator of `rand` 0.8, seeded with `seed`,
/// draws first from `low..=high`. The generator of that version is a
/// function of its seed alone; another version of `rand` may draw other
/// numbers.
pub uninterp spec fn seeded_draw(seed: u64, low: int, high: int) -> int;

/// The yellow of the sun.
pub open spec fn sun_base() -> Color {
    Color { r: 255, g: 204, b: 0 }
}

/// The brown of a rocky planet.
pub open spec fn rocky_base() -> Color {
    Color { r: 139, g: 69, b: 19 }
}

/// The two bands of a gas giant: blue where `pick` holds, orange elsewhere.
pub open spec fn gas_giant_base(pick: bool) -> Color {
    if pick {
        Color { r: 30, g: 144, b: 255 }
    } else {
        Color { r: 255, g: 69, b: 0 }
    }
}

/// The two pinks of a small gas planet: the light one where `pick` holds.
pub open spec fn small_gas_base(pick: bool) -> Color {
    if pick {
        Color { r: 255, g: 182, b: 193 }
    } else {
        Color { r: 255, g: 105, b: 180 }
    }
}

/// Black for a draw below 50, white from 50 on.
pub open spec fn two_tone_base(draw: int) -> Color {
    if draw < 50 {
        Color { r: 0, g: 0, b: 0 }
    } else {
        Color { r: 255, g: 255, b: 255 }
    }
}

/// The seed of the dither at one point of an object in one frame: the whole
/// part of `|time * y * x|`, with `x` and `y` in Q16.16.
pub open spec fn dither_seed(time: u32, x: i32, y: i32) -> u64 {
    let p = time * y * x;
    ((if p < 0 { -p } else { p }) / 0x1_0000_0000) as u64
}

/// What the dither shader gives for a fragment: it depends on the frame
/// time, on the x and y of the fragment's point on the object and on its
/// intensity, and on nothing else.
pub open spec fn black_and_white_color(time: u32, x: i32, y: i32, intensity: i32) -> Color {
    scaled_color(two_tone_base(seeded_draw(dither_seed(time, x, y), 0, 100)), intensity)
}

/// Whether `c` is a color that `shader` may give to `fragment`. The two gas
/// shaders flip a coin between their two bands; every other shader gives
/// one color only.
pub open spec fn may_shade(shader: Shader, fragment: Fragment, uniforms: Uniforms, c: Color) -> bool {
    match shader {
        Shader::Sun => c == scaled_color(sun_base(), fragment.intensity),
        Shader::RockyPlanet => c == scaled_color(rocky_base(), fragment.intensity),
        Shader::GasGiant => exists|pick: bool|
            c == scaled_color(#[trigger] gas_giant_base(pick), fragment.intensity),
        Shader::SmallGasPlanet => exists|pick: bool|
            c == scaled_color(#[trigger] small_gas_base(pick), fragment.intensity),
        Shader::BlackAndWhite => c == black_and_white_color(
            uniforms.time,
            fragment.vertex_position.x,
            fragment.vertex_position.y,
            fragment.intensity,
        ),
    }
}

/// The dither shader is a function of the frame time, of the x and y of the
/// fragment's point on the object and of its intensity: two fragments that
/// agree on these get the same color, whatever else differs.
pub proof fn lemma_black_and_white_deterministic(
    f1: Fragment,
    u1: Uniforms,
    f2: Fragment,
    u2: Uniforms,
    c1: Color,
    c2: Color,
)
    requires
        u1.time == u2.time,
        f1.vertex_position.x == f2.vertex_position.x,
        f1.vertex_position.y == f2.vertex_position.y,
        f1.intensity == f2.intensity,
        may_shade(Shader::BlackAndWhite, f1, u1, c1),
        may_shade(Shader::BlackAndWhite, f2, u2, c2),
    ensures
        c1 == c2,
{
}

/// Whether two names are the same text.
pub fn name_is(name: &str, other: &str) -> (same: bool)
    ensures
        same == (name@ == other@),
{
    name.to_owned() == other.to_owned()
}

/// Calls `rand::rngs::StdRng::seed_from_u64` and then `rand::Rng::gen_range`
/// on `low..=high`, which must not be empty. In `rand` 0.8 the generator is
/// a function of its seed alone, so the number drawn is one per seed and
/// range, and it lies in the range asked for; which number it is is not
/// stated.
#[verifier::external_body]
fn draw_between(seed: u64, low: i32, high: i32) -> (n: i32)
    requires
        low <= high,
    ensures
        n == seeded_draw(seed, low as int, high as int),
        low <= n <= high,
{
    let mut rng = StdRng::seed_from_u64(seed);
    rng.gen_range(low..=high)
}

/// Calls `rand::thread_rng` and then `rand::Rng::gen_ratio` with one in two.
/// Nothing is stated of the outcome.
#[verifier::external_body]
fn coin_flip() -> bool {
    let mut rng = rand::thread_rng();
    rng.gen_ratio(1, 2)
}

/// The seed of the dither for a point `(x, y)` of an object at frame `time`.
pub fn seed_for(time: u32, x: i32, y: i32) -> (seed: u64)
    ensures
        seed == dither_seed(time, x, y),
{
    assert(-0x4000_0000_0000_0000_0000_0000 <= time * y * x <= 0x4000_0000_0000_0000_0000_0000)
        by (nonlinear_arith)
        requires
            0 <= time <= 0xffff_ffff,
            -0x8000_0000 <= y <= 0x7fff_ffff,
            -0x8000_0000 <= x <= 0x7fff_ffff,
    ;
    assert(-0x8000_0000_0000_0000 <= time * y <= 0x8000_0000_0000_0000) by (nonlinear_arith)
        requires
            0 <= time <= 0xffff_ffff,
            -0x8000_0000 <= y <= 0x7fff_ffff,
    ;
    let p: i128 = (time as i128) * (y as i128) * (x as i128);
    let a: i128 = if p < 0 { -p } else { p };
    let q: i128 = div_floor(a, 0x1_0000_0000);
    q as u64
}

/// The gas giant's color for one outcome of the coin.
pub fn gas_giant_color(pick: bool, intensity: i32) -> (c: Color)
    ensures
        c == scaled_color(gas_giant_base(pick), intensity),
{
    let gas_color = if pick { Color::new(30, 144, 255) } else { Color::new(255, 69, 0) };
    gas_color.scale(intensity)
}

/// The small gas planet's color for one outcome of the coin.
pub fn small_gas_planet_color(pick: bool, intensity: i32) -> (c: Color)
    ensures
        c == scaled_color(small_gas_base(pick), intensity),
{
    let gas_color = if pick { Color::new(255, 182, 193) } else { Color::new(255, 105, 180) };
    gas_color.scale(intensity)
}

/// The dither's color for one number drawn.
pub fn black_or_white(draw: i32, intensity: i32) -> (c: Color)
    ensures
        c == scaled_color(two_tone_base(draw as int), intensity),
{
    let tone = if draw < 50 { Color::new(0, 0, 0) } else { Color::new(255, 255, 255) };
    tone.scale(intensity)
}

/// Where the transforms of a draw call put a vertex in clip space.
fn clip(vertex: &Vertex, uniforms: &Uniforms) -> (c: Wide4)
    ensures
        c@ == clip_position(*uniforms, vertex.position),
        within(c@, 0x4_0000_0000_0000_0000_0000),
{
    let position = Wide4 {
        x: vertex.position.x as i128,
        y: vertex.position.y as i128,
        z: vertex.position.z as i128,
        w: 65536,
    };
    let world = uniforms.model_matrix.transform(&position);
    assert(within(world@, 0x8000_0000int * 0x2_0000));
    let eye = uniforms.view_matrix.transform(&world);
    assert(within(eye@, 0x1_0000_0000_0000int * 0x2_0000));
    let transformed = uniforms.projection_matrix.transform(&eye);
    assert(within(transformed@, 0x2_0000_0000_0000_0000int * 0x2_0000));
    transformed
}

/// Whether the transforms of the draw call put `vertex` on the plane of the
/// camera. Such a vertex has no place on the screen, and a triangle with
/// such a corner cannot be drawn.
pub fn on_camera_plane(vertex: &Vertex, uniforms: &Uniforms) -> (on: bool)
    ensures
        on == lies_on_camera_plane(*vertex, *uniforms),
{
    clip(vertex, uniforms).w == 0
}

/// Carries a vertex from object space to the screen. The position goes
/// through the model, view and projection transforms, is divided by its
/// `w` and goes through the viewport transform; the normal goes along with
/// the model. The object-space fields stay as they are, for every vertex.
/// The depth that comes out is always below `DEPTH_INFINITY`. For a vertex
/// on the plane of the camera, whose `w` is zero, the screen position that
/// comes out is a stand-in (see `screen_position`); `on_camera_plane` tells.
pub fn vertex_shader(vertex: &Vertex, uniforms: &Uniforms) -> (out: Vertex)
    ensures
        out == shaded_vertex(*vertex, *uniforms),
        out.position == vertex.position,
        out.normal == vertex.normal,
        out.tex_coords == vertex.tex_coords,
        out.color == vertex.color,
        out.transformed_normal == carried_normal(uniforms.model_matrix, vertex.normal),
        out.transformed_position == screen_position(*uniforms, vertex.position),
        out.transformed_position.z < DEPTH_INFINITY,
{
    let transformed = clip(vertex, uniforms);
    let w = transformed.w;
    let ndc = Wide4 {
        x: perspective_divide(transformed.x, w) as i128,
        y: perspective_divide(transformed.y, w) as i128,
        z: perspective_divide(transformed.z, w) as i128,
        w: 65536,
    };
    let screen_position = uniforms.viewport_matrix.transform(&ndc);
    let transformed_normal = uniforms.model_matrix.transform_normal(&vertex.normal);
    let depth = clamp_to_i32(screen_position.z);
    Vertex {
        position: vertex.position,
        normal: vertex.normal,
        tex_coords: vertex.tex_coords,
        color: vertex.color,
        transformed_position: Vec3::new(
            clamp_to_i32(screen_position.x),
            clamp_to_i32(screen_position.y),
            if depth == DEPTH_INFINITY { DEPTH_INFINITY - 1 } else { depth },
        ),
        transformed_normal,
    }
}

/// The sun: bright yellow, dimmed by the fragment's intensity.
pub fn sun_shader(fragment: &Fragment, _uniforms: &Uniforms) -> (c: Color)
    ensures
        c == scaled_color(sun_base(), fragment.intensity),
{
    let bright_yellow = Color::new(255, 204, 0);
    bright_yellow.scale(fragment.intensity)
}

/// A rocky planet: brown, dimmed by the fragment's intensity.
pub fn rocky_planet_shader(fragment: &Fragment, _uniforms: &Uniforms) -> (c: Color)
    ensures
        c == scaled_color(rocky_base(), fragment.intensity),
{
    let rocky_color = Color::new(139, 69, 19);
    rocky_color.scale(fragment.intensity)
}

/// A gas giant: blue or orange at the flip of a coin, dimmed by the
/// fragment's intensity. Two calls on one fragment may differ.
pub fn gas_giant_shader(fragment: &Fragment, _uniforms: &Uniforms) -> (c: Color)
    ensures
        c == scaled_color(gas_giant_base(true), fragment.intensity) || c == scaled_color(
            gas_giant_base(false),
            fragment.intensity,
        ),
{
    gas_giant_color(coin_flip(), fragment.intensity)
}

/// A small gas planet: one of two pinks at the flip of a coin, dimmed by the
/// fragment's intensity. Two calls on one fragment may differ.
pub fn small_gas_planet_shader(fragment: &Fragment, _uniforms: &Uniforms) -> (c: Color)
    ensures
        c == scaled_color(small_gas_base(true), fragment.intensity) || c == scaled_color(
            small_gas_base(false),
            fragment.intensity,
        ),
{
    small_gas_planet_color(coin_flip(), fragment.intensity)
}

/// The dither: black or white by a number drawn from a generator that is
/// seeded with the frame time and the fragment's point on the object, dimmed
/// by the fragment's intensity. The pattern is fixed within a frame and
/// changes from frame to frame.
pub fn black_and_white(fragment: &Fragment, uniforms: &Uniforms) -> (c: Color)
    ensures
        c == black_and_white_color(
            uniforms.time,
            fragment.vertex_position.x,
            fragment.vertex_position.y,
            fragment.intensity,
        ),
{
    let seed = seed_for(uniforms.time, fragment.vertex_position.x, fragment.vertex_position.y);
    let random_number = draw_between(seed, 0, 100);
    black_or_white(random_number, fragment.intensity)
}

/// The shader of a surface of no named kind: the dither.
pub fn fragment_shader(fragment: &Fragment, uniforms: &Uniforms) -> (c: Color)
    ensures
        c == black_and_white_color(
            uniforms.time,
            fragment.vertex_position.x,
            fragment.vertex_position.y,
            fragment.intensity,
        ),
{
    black_and_white(fragment, uniforms)
}

impl Shader {
    /// Runs the shader of this kind on `fragment`.
    pub fn shade(&self, fragment: &Fragment, uniforms: &Uniforms) -> (c: Color)
        ensures
            may_shade(*self, *fragment, *uniforms, c),
    {
        match self {
            Shader::Sun => sun_shader(fragment, uniforms),
            Shader::RockyPlanet => rocky_planet_shader(fragment, uniforms),
            Shader::GasGiant => {
                let c = gas_giant_shader(fragment, uniforms);
                assert(gas_giant_base(true) == gas_giant_base(true));
                assert(gas_giant_base(false) == gas_giant_base(false));
                c
            },
            Shader::SmallGasPlanet => {
                let c = small_gas_planet_shader(fragment, uniforms);
                assert(small_gas_base(true) == small_gas_base(true));
                assert(small_gas_base(false) == small_gas_base(false));
                c
            },
            Shader::BlackAndWhite => black_and_white(fragment, uniforms),
        }
    }
}

} // verus!
