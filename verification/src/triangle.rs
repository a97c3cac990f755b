//! The triangle stage: every pixel of a triangle's bounding box is tested at
//! its center, and each covered pixel gets a fragment whose depth, normal and
//! object-space position are the weighted means of the corners' values.
//!
//! A pixel is covered when all three weights of its center lie within 0..=1,
//! both ends included. Two triangles that share an edge therefore both cover
//! a pixel whose center lies on that edge; the depth test of the framebuffer
//! then keeps the first of two equally deep samples.

use crate::color::scaled_color;
use crate::color::Color;
use crate::coverage::blend;
use crate::coverage::covers;
use crate::coverage::edge;
use crate::coverage::inside;
use crate::coverage::lemma_blend_range;
use crate::coverage::lemma_covered_point_in_box;
use crate::coverage::lemma_weights_sum_to_one;
use crate::coverage::max3;
use crate::coverage::min3;
use crate::coverage::total;
use crate::coverage::weights;
use crate::coverage::weights_for;
use crate::coverage::Point;
use crate::coverage::Weights;
use crate::fixed::div_floor;
use crate::fixed::HALF;
use crate::fixed::ONE;
use crate::fragment::Fragment;
use crate::fragment::Pixel;
use crate::shaders::gas_giant_shader;
use crate::shaders::name_is;
use crate::shaders::rocky_planet_shader;
use crate::shaders::small_gas_planet_shader;
use crate::shaders::sun_shader;
use crate::uniforms::Uniforms;
use crate::vector::dot_product;
use crate::vector::normalized;
use crate::vector::Vec3;
use crate::vertex::Vertex;
use vstd::prelude::*;

verus! {

/// Where a screen-space position lies in the screen plane.
pub open spec fn screen_point(v: Vec3) -> Point {
    Point { x: v.x as int, y: v.y as int }
}

/// The center of pixel `(x, y)`: half a pixel right of and below its corner.
pub open spec fn pixel_center(x: int, y: int) -> Point {
    Point { x: x * ONE + HALF, y: y * ONE + HALF }
}

/// The pixel that a Q16.16 coordinate falls in.
pub open spec fn pixel_floor(v: int) -> int {
    v / (ONE as int)
}

/// The first pixel boundary at or after a Q16.16 coordinate.
pub open spec fn pixel_ceil(v: int) -> int {
    (v + ONE - 1) / (ONE as int)
}

/// The box of pixels around a triangle, as `(min_x, min_y, max_x, max_y)`,
/// all four included: the least coordinates rounded down, the greatest
/// rounded up.
pub open spec fn bounding_box(a: Vec3, b: Vec3, c: Vec3) -> (int, int, int, int) {
    (
        pixel_floor(min3(a.x as int, b.x as int, c.x as int)),
        pixel_floor(min3(a.y as int, b.y as int, c.y as int)),
        pixel_ceil(max3(a.x as int, b.x as int, c.x as int)),
        pixel_ceil(max3(a.y as int, b.y as int, c.y as int)),
    )
}

/// The direction that the light comes from: along +z.
pub open spec fn light_direction() -> Vec3 {
    Vec3 { x: 0, y: 0, z: ONE }
}

/// The light that a surface facing along `normal` gets: the scalar product
/// with the light's direction, held to 0..=1. A surface that faces away gets
/// none.
pub open spec fn lambert(normal: Vec3) -> i32 {
    let d = dot_product(normal, light_direction());
    if d < 0 {
        0
    } else if d > ONE {
        ONE
    } else {
        d as i32
    }
}

/// The color that a fragment carries until the shading stage gives it its
/// own: black for the four named kinds of surface, and for any other name a
/// grey dimmed by the intensity.
pub open spec fn placeholder_color(name: Seq<char>, intensity: i32) -> Color {
    if name == "sun"@ || name == "rocky_planet"@ || name == "gas_giant"@ || name
        == "small_gas_planet"@ {
        Color { r: 0, g: 0, b: 0 }
    } else {
        scaled_color(Color { r: 100, g: 100, b: 100 }, intensity)
    }
}

/// The weighted mean of three vectors, component by component.
pub open spec fn blend_vec(w: Weights, total: int, fa: Vec3, fb: Vec3, fc: Vec3) -> Vec3 {
    Vec3 {
        x: blend(w, total, fa.x as int, fb.x as int, fc.x as int) as i32,
        y: blend(w, total, fa.y as int, fb.y as int, fc.y as int) as i32,
        z: blend(w, total, fa.z as int, fb.z as int, fc.z as int) as i32,
    }
}

/// Whether the triangle of the three vertices covers the center of pixel
/// `(x, y)`.
pub open spec fn covered_pixel(v1: Vertex, v2: Vertex, v3: Vertex, x: int, y: int) -> bool {
    covers(
        screen_point(v1.transformed_position),
        screen_point(v2.transformed_position),
        screen_point(v3.transformed_position),
        pixel_center(x, y),
    )
}

/// The fragment that the triangle leaves on a pixel that it covers.
pub open spec fn fragment_at(
    v1: Vertex,
    v2: Vertex,
    v3: Vertex,
    x: int,
    y: int,
    name: Seq<char>,
) -> Fragment {
    let a = screen_point(v1.transformed_position);
    let b = screen_point(v2.transformed_position);
    let c = screen_point(v3.transformed_position);
    let w = weights(pixel_center(x, y), a, b, c);
    let t = total(a, b, c);
    let normal = normalized(
        blend_vec(w, t, v1.transformed_normal, v2.transformed_normal, v3.transformed_normal),
    );
    Fragment {
        position: Pixel { x: x as i32, y: y as i32 },
        color: placeholder_color(name, lambert(normal)),
        depth: blend(
            w,
            t,
            v1.transformed_position.z as int,
            v2.transformed_position.z as int,
            v3.transformed_position.z as int,
        ) as i32,
        normal,
        intensity: lambert(normal),
        vertex_position: blend_vec(w, t, v1.position, v2.position, v3.position),
    }
}

/// What the triangle leaves on pixel `(x, y)`: one fragment if it covers the
/// pixel's center, nothing if not.
pub open spec fn pixel_fragments(
    v1: Vertex,
    v2: Vertex,
    v3: Vertex,
    x: int,
    y: int,
    name: Seq<char>,
) -> Seq<Fragment> {
    if covered_pixel(v1, v2, v3, x, y) {
        seq![fragment_at(v1, v2, v3, x, y, name)]
    } else {
        Seq::empty()
    }
}

/// The fragments on row `y` from column `x_lo` up to, not including,
/// `x_end`, left to right.
pub open spec fn row_fragments(
    v1: Vertex,
    v2: Vertex,
    v3: Vertex,
    y: int,
    x_lo: int,
    x_end: int,
    name: Seq<char>,
) -> Seq<Fragment>
    decreases x_end - x_lo,
{
    if x_end <= x_lo {
        Seq::empty()
    } else {
        row_fragments(v1, v2, v3, y, x_lo, x_end - 1, name) + pixel_fragments(
            v1,
            v2,
            v3,
            x_end - 1,
            y,
            name,
        )
    }
}

/// The fragments on the rows from `y_lo` up to, not including, `y_end`, top
/// row first, each row left to right between `x_lo` and `x_end`.
pub open spec fn box_fragments(
    v1: Vertex,
    v2: Vertex,
    v3: Vertex,
    x_lo: int,
    x_end: int,
    y_lo: int,
    y_end: int,
    name: Seq<char>,
) -> Seq<Fragment>
    decreases y_end - y_lo,
{
    if y_end <= y_lo {
        Seq::empty()
    } else {
        box_fragments(v1, v2, v3, x_lo, x_end, y_lo, y_end - 1, name) + row_fragments(
            v1,
            v2,
            v3,
            y_end - 1,
            x_lo,
            x_end,
            name,
        )
    }
}

/// The fragments of a triangle: those of the pixels of its bounding box, row
/// by row.
pub open spec fn triangle_fragments(v1: Vertex, v2: Vertex, v3: Vertex, name: Seq<char>) -> Seq<
    Fragment,
> {
    let bb = bounding_box(
        v1.transformed_position,
        v2.transformed_position,
        v3.transformed_position,
    );
    box_fragments(v1, v2, v3, bb.0, bb.2 + 1, bb.1, bb.3 + 1, name)
}

/// Whether `f` is the fragment of a pixel that the triangle covers.
pub open spec fn is_fragment_of(v1: Vertex, v2: Vertex, v3: Vertex, name: Seq<char>, f: Fragment) -> bool {
    exists|x: int, y: int|
        covered_pixel(v1, v2, v3, x, y) && f == #[trigger] fragment_at(v1, v2, v3, x, y, name)
}

/// The center of a covered pixel lies within the box that the corners span,
/// so the pixel lies within the bounding box, and its column and row are
/// what the fragment's position holds.
pub proof fn lemma_covered_pixel_in_box(v1: Vertex, v2: Vertex, v3: Vertex, x: int, y: int)
    requires
        covered_pixel(v1, v2, v3, x, y),
    ensures
        ({
            let a = v1.transformed_position;
            let b = v2.transformed_position;
            let c = v3.transformed_position;
            let bb = bounding_box(a, b, c);
            &&& min3(a.x as int, b.x as int, c.x as int) <= x * ONE + HALF <= max3(
                a.x as int,
                b.x as int,
                c.x as int,
            )
            &&& min3(a.y as int, b.y as int, c.y as int) <= y * ONE + HALF <= max3(
                a.y as int,
                b.y as int,
                c.y as int,
            )
            &&& bb.0 <= x <= bb.2
            &&& bb.1 <= y <= bb.3
            &&& -32768 <= x <= 32767
            &&& -32768 <= y <= 32767
        }),
{
    lemma_covered_point_in_box(
        screen_point(v1.transformed_position),
        screen_point(v2.transformed_position),
        screen_point(v3.transformed_position),
        pixel_center(x, y),
    );
}

/// The depth of a fragment lies between the least and the greatest depth of
/// the three corners. So a triangle whose corners are nearer than
/// `DEPTH_INFINITY`, as the vertex shader leaves them, has fragments that
/// are, and each of them is accepted by a pixel that nothing was drawn on.
pub proof fn lemma_fragment_depth_in_range(
    v1: Vertex,
    v2: Vertex,
    v3: Vertex,
    x: int,
    y: int,
    name: Seq<char>,
)
    requires
        covered_pixel(v1, v2, v3, x, y),
    ensures
        min3(
            v1.transformed_position.z as int,
            v2.transformed_position.z as int,
            v3.transformed_position.z as int,
        ) <= fragment_at(v1, v2, v3, x, y, name).depth <= max3(
            v1.transformed_position.z as int,
            v2.transformed_position.z as int,
            v3.transformed_position.z as int,
        ),
{
    let a = screen_point(v1.transformed_position);
    let b = screen_point(v2.transformed_position);
    let c = screen_point(v3.transformed_position);
    lemma_weights_sum_to_one(pixel_center(x, y), a, b, c);
    lemma_blend_range(
        weights(pixel_center(x, y), a, b, c),
        total(a, b, c),
        v1.transformed_position.z as int,
        v2.transformed_position.z as int,
        v3.transformed_position.z as int,
    );
}

/// Every fragment of a row is the fragment of a covered pixel.
pub proof fn lemma_row_fragments_covered(
    v1: Vertex,
    v2: Vertex,
    v3: Vertex,
    y: int,
    x_lo: int,
    x_end: int,
    name: Seq<char>,
    i: int,
)
    requires
        0 <= i < row_fragments(v1, v2, v3, y, x_lo, x_end, name).len(),
    ensures
        is_fragment_of(v1, v2, v3, name, row_fragments(v1, v2, v3, y, x_lo, x_end, name)[i]),
    decreases x_end - x_lo,
{
    if x_end > x_lo {
        let before = row_fragments(v1, v2, v3, y, x_lo, x_end - 1, name);
        if i < before.len() {
            lemma_row_fragments_covered(v1, v2, v3, y, x_lo, x_end - 1, name, i);
        } else {
            assert(covered_pixel(v1, v2, v3, x_end - 1, y));
            assert(row_fragments(v1, v2, v3, y, x_lo, x_end, name)[i] == fragment_at(
                v1,
                v2,
                v3,
                x_end - 1,
                y,
                name,
            ));
        }
    }
}

/// Every fragment of a box is the fragment of a covered pixel.
pub proof fn lemma_box_fragments_covered(
    v1: Vertex,
    v2: Vertex,
    v3: Vertex,
    x_lo: int,
    x_end: int,
    y_lo: int,
    y_end: int,
    name: Seq<char>,
    i: int,
)
    requires
        0 <= i < box_fragments(v1, v2, v3, x_lo, x_end, y_lo, y_end, name).len(),
    ensures
        is_fragment_of(
            v1,
            v2,
            v3,
            name,
            box_fragments(v1, v2, v3, x_lo, x_end, y_lo, y_end, name)[i],
        ),
    decreases y_end - y_lo,
{
    if y_end > y_lo {
        let before = box_fragments(v1, v2, v3, x_lo, x_end, y_lo, y_end - 1, name);
        if i < before.len() {
            lemma_box_fragments_covered(v1, v2, v3, x_lo, x_end, y_lo, y_end - 1, name, i);
        } else {
            lemma_row_fragments_covered(v1, v2, v3, y_end - 1, x_lo, x_end, name, i - before.len());
        }
    }
}

/// A row holds the fragment of each covered pixel between its ends.
pub proof fn lemma_row_fragments_complete(
    v1: Vertex,
    v2: Vertex,
    v3: Vertex,
    y: int,
    x_lo: int,
    x_end: int,
    name: Seq<char>,
    x: int,
)
    requires
        x_lo <= x < x_end,
        covered_pixel(v1, v2, v3, x, y),
    ensures
        row_fragments(v1, v2, v3, y, x_lo, x_end, name).contains(
            fragment_at(v1, v2, v3, x, y, name),
        ),
    decreases x_end - x_lo,
{
    let before = row_fragments(v1, v2, v3, y, x_lo, x_end - 1, name);
    let here = pixel_fragments(v1, v2, v3, x_end - 1, y, name);
    let f = fragment_at(v1, v2, v3, x, y, name);
    if x == x_end - 1 {
        assert((before + here)[before.len() as int] == f);
    } else {
        lemma_row_fragments_complete(v1, v2, v3, y, x_lo, x_end - 1, name, x);
        let i = choose|i: int| 0 <= i < before.len() && before[i] == f;
        assert((before + here)[i] == f);
    }
}

/// A box holds the fragment of each covered pixel within it.
pub proof fn lemma_box_fragments_complete(
    v1: Vertex,
    v2: Vertex,
    v3: Vertex,
    x_lo: int,
    x_end: int,
    y_lo: int,
    y_end: int,
    name: Seq<char>,
    x: int,
    y: int,
)
    requires
        x_lo <= x < x_end,
        y_lo <= y < y_end,
        covered_pixel(v1, v2, v3, x, y),
    ensures
        box_fragments(v1, v2, v3, x_lo, x_end, y_lo, y_end, name).contains(
            fragment_at(v1, v2, v3, x, y, name),
        ),
    decreases y_end - y_lo,
{
    let before = box_fragments(v1, v2, v3, x_lo, x_end, y_lo, y_end - 1, name);
    let row = row_fragments(v1, v2, v3, y_end - 1, x_lo, x_end, name);
    let f = fragment_at(v1, v2, v3, x, y, name);
    if y == y_end - 1 {
        lemma_row_fragments_complete(v1, v2, v3, y, x_lo, x_end, name, x);
        let i = choose|i: int| 0 <= i < row.len() && row[i] == f;
        assert((before + row)[before.len() + i] == f);
    } else {
        lemma_box_fragments_complete(v1, v2, v3, x_lo, x_end, y_lo, y_end - 1, name, x, y);
        let i = choose|i: int| 0 <= i < before.len() && before[i] == f;
        assert((before + row)[i] == f);
    }
}

/// The fragments of a triangle are those of the pixels whose centers it
/// covers, and of no others: every fragment belongs to a covered pixel, and
/// every covered pixel, wherever on the plane, has its fragment among them.
pub proof fn lemma_fragments_are_covered_pixels(
    v1: Vertex,
    v2: Vertex,
    v3: Vertex,
    name: Seq<char>,
)
    ensures
        forall|i: int|
            0 <= i < triangle_fragments(v1, v2, v3, name).len() ==> is_fragment_of(
                v1,
                v2,
                v3,
                name,
                #[trigger] triangle_fragments(v1, v2, v3, name)[i],
            ),
        forall|x: int, y: int|
            covered_pixel(v1, v2, v3, x, y) ==> triangle_fragments(v1, v2, v3, name).contains(
                #[trigger] fragment_at(v1, v2, v3, x, y, name),
            ),
{
    let bb = bounding_box(
        v1.transformed_position,
        v2.transformed_position,
        v3.transformed_position,
    );
    assert forall|i: int| 0 <= i < triangle_fragments(v1, v2, v3, name).len() implies is_fragment_of(
        v1,
        v2,
        v3,
        name,
        #[trigger] triangle_fragments(v1, v2, v3, name)[i],
    ) by {
        lemma_box_fragments_covered(v1, v2, v3, bb.0, bb.2 + 1, bb.1, bb.3 + 1, name, i);
    }
    assert forall|x: int, y: int| covered_pixel(v1, v2, v3, x, y) implies triangle_fragments(
        v1,
        v2,
        v3,
        name,
    ).contains(#[trigger] fragment_at(v1, v2, v3, x, y, name)) by {
        lemma_covered_pixel_in_box(v1, v2, v3, x, y);
        lemma_box_fragments_complete(v1, v2, v3, bb.0, bb.2 + 1, bb.1, bb.3 + 1, name, x, y);
    }
}

/// A triangle of no area leaves no fragments.
pub proof fn lemma_degenerate_triangle_is_empty(v1: Vertex, v2: Vertex, v3: Vertex, name: Seq<char>)
    requires
        edge(
            screen_point(v1.transformed_position),
            screen_point(v2.transformed_position),
            screen_point(v3.transformed_position),
        ) == 0,
    ensures
        triangle_fragments(v1, v2, v3, name).len() == 0,
{
    lemma_fragments_are_covered_pixels(v1, v2, v3, name);
    if triangle_fragments(v1, v2, v3, name).len() > 0 {
        assert(is_fragment_of(v1, v2, v3, name, triangle_fragments(v1, v2, v3, name)[0]));
    }
}

/// The box of pixels around the triangle `v1`, `v2`, `v3`, as
/// `(min_x, min_y, max_x, max_y)`.
pub fn calculate_bounding_box(v1: &Vec3, v2: &Vec3, v3: &Vec3) -> (bb: (i32, i32, i32, i32))
    ensures
        (bb.0 as int, bb.1 as int, bb.2 as int, bb.3 as int) == bounding_box(*v1, *v2, *v3),
        -32768 <= bb.0 <= bb.2 <= 32768,
        -32768 <= bb.1 <= bb.3 <= 32768,
{
    let min_x = div_floor(least(v1.x, v2.x, v3.x) as i128, 65536) as i32;
    let min_y = div_floor(least(v1.y, v2.y, v3.y) as i128, 65536) as i32;
    let max_x = div_floor(greatest(v1.x, v2.x, v3.x) as i128 + 65535, 65536) as i32;
    let max_y = div_floor(greatest(v1.y, v2.y, v3.y) as i128 + 65535, 65536) as i32;
    (min_x, min_y, max_x, max_y)
}

fn least(a: i32, b: i32, c: i32) -> (m: i32)
    ensures
        m == min3(a as int, b as int, c as int),
{
    if a <= b && a <= c {
        a
    } else if b <= c {
        b
    } else {
        c
    }
}

fn greatest(a: i32, b: i32, c: i32) -> (m: i32)
    ensures
        m == max3(a as int, b as int, c as int),
{
    if a >= b && a >= c {
        a
    } else if b >= c {
        b
    } else {
        c
    }
}

/// The edge function of screen positions stays within 66 bits.
pub proof fn lemma_edge_bound(a: Vec3, b: Vec3, c: Vec3)
    ensures
        -0x2_0000_0000_0000_0000 <= edge(screen_point(a), screen_point(b), screen_point(c))
            <= 0x2_0000_0000_0000_0000,
{
    let cx = c.x - a.x;
    let cy = c.y - a.y;
    let bx = b.x - a.x;
    let by = b.y - a.y;
    assert(-0x1_0000_0000_0000_0000 <= cx * by <= 0x1_0000_0000_0000_0000) by (nonlinear_arith)
        requires
            -0x1_0000_0000 <= cx <= 0x1_0000_0000,
            -0x1_0000_0000 <= by <= 0x1_0000_0000,
    ;
    assert(-0x1_0000_0000_0000_0000 <= cy * bx <= 0x1_0000_0000_0000_0000) by (nonlinear_arith)
        requires
            -0x1_0000_0000 <= cy <= 0x1_0000_0000,
            -0x1_0000_0000 <= bx <= 0x1_0000_0000,
    ;
}

/// The edge function of three screen positions: twice the signed area of
/// their triangle.
pub fn edge_function(a: &Vec3, b: &Vec3, c: &Vec3) -> (e: i128)
    ensures
        e == edge(screen_point(*a), screen_point(*b), screen_point(*c)),
        -0x2_0000_0000_0000_0000 <= e <= 0x2_0000_0000_0000_0000,
{
    let cx: i128 = c.x as i128 - a.x as i128;
    let cy: i128 = c.y as i128 - a.y as i128;
    let bx: i128 = b.x as i128 - a.x as i128;
    let by: i128 = b.y as i128 - a.y as i128;
    assert(-0x1_0000_0000_0000_0000 <= cx * by <= 0x1_0000_0000_0000_0000) by (nonlinear_arith)
        requires
            -0x1_0000_0000 <= cx <= 0x1_0000_0000,
            -0x1_0000_0000 <= by <= 0x1_0000_0000,
    ;
    assert(-0x1_0000_0000_0000_0000 <= cy * bx <= 0x1_0000_0000_0000_0000) by (nonlinear_arith)
        requires
            -0x1_0000_0000 <= cy <= 0x1_0000_0000,
            -0x1_0000_0000 <= bx <= 0x1_0000_0000,
    ;
    cx * by - cy * bx
}

/// The barycentric weights of `p` in the triangle `a`, `b`, `c`, whose edge
/// function is `area`: three numerators over the size of `area`.
pub fn barycentric_coordinates(p: &Vec3, a: &Vec3, b: &Vec3, c: &Vec3, area: i128) -> (w: (
    i128,
    i128,
    i128,
))
    ensures
        (Weights { w1: w.0 as int, w2: w.1 as int, w3: w.2 as int }) == weights_for(
            screen_point(*p),
            screen_point(*a),
            screen_point(*b),
            screen_point(*c),
            area as int,
        ),
        -0x2_0000_0000_0000_0000 <= w.0 <= 0x2_0000_0000_0000_0000,
        -0x2_0000_0000_0000_0000 <= w.1 <= 0x2_0000_0000_0000_0000,
        -0x2_0000_0000_0000_0000 <= w.2 <= 0x2_0000_0000_0000_0000,
{
    let e1 = edge_function(b, c, p);
    let e2 = edge_function(c, a, p);
    let e3 = edge_function(a, b, p);
    if area < 0 {
        (-e1, -e2, -e3)
    } else {
        (e1, e2, e3)
    }
}

/// The weighted mean of `fa`, `fb`, `fc` under weights that lie within the
/// triangle.
pub fn interpolate(w: (i128, i128, i128), total: i128, fa: i32, fb: i32, fc: i32) -> (v: i32)
    requires
        0 < total <= 0x2_0000_0000_0000_0000,
        0 <= w.0,
        0 <= w.1,
        0 <= w.2,
        w.0 + w.1 + w.2 == total,
    ensures
        v == blend(
            Weights { w1: w.0 as int, w2: w.1 as int, w3: w.2 as int },
            total as int,
            fa as int,
            fb as int,
            fc as int,
        ),
        min3(fa as int, fb as int, fc as int) <= v <= max3(fa as int, fb as int, fc as int),
{
    proof {
        let ws = Weights { w1: w.0 as int, w2: w.1 as int, w3: w.2 as int };
        lemma_blend_range(ws, total as int, fa as int, fb as int, fc as int);
        lemma_term_bound(fa as int, w.0 as int);
        lemma_term_bound(fb as int, w.1 as int);
        lemma_term_bound(fc as int, w.2 as int);
    }
    let n: i128 = (fa as i128) * w.0 + (fb as i128) * w.1 + (fc as i128) * w.2;
    div_floor(n, total) as i32
}

proof fn lemma_term_bound(f: int, w: int)
    by (nonlinear_arith)
    requires
        -0x8000_0000 <= f <= 0x8000_0000,
        0 <= w <= 0x2_0000_0000_0000_0000,
    ensures
        -0x1_0000_0000_0000_0000_0000_0000 <= f * w <= 0x1_0000_0000_0000_0000_0000_0000,
{
}

/// The light that a surface facing along `normal` gets.
pub fn lighting(normal: &Vec3) -> (intensity: i32)
    ensures
        intensity == lambert(*normal),
        0 <= intensity <= ONE,
{
    let light_dir = Vec3::new(0, 0, 65536);
    let d: i64 = normal.dot(&light_dir);
    if d < 0 {
        0
    } else if d > 65536 {
        65536
    } else {
        d as i32
    }
}

/// The color that a fragment of a surface named `planet_type` carries out of
/// the triangle stage.
pub fn get_shader_for_planet(planet_type: &str, intensity: i32, uniforms: &Uniforms) -> (c: Color)
    ensures
        c == placeholder_color(planet_type@, intensity),
{
    let fragment_default = Fragment::new(
        0,
        0,
        Color::black(),
        0,
        Vec3::new(0, 0, 0),
        0,
        Vec3::new(0, 0, 0),
    );
    if name_is(planet_type, "sun") {
        sun_shader(&fragment_default, uniforms).scale(intensity)
    } else if name_is(planet_type, "rocky_planet") {
        rocky_planet_shader(&fragment_default, uniforms).scale(intensity)
    } else if name_is(planet_type, "gas_giant") {
        gas_giant_shader(&fragment_default, uniforms).scale(intensity)
    } else if name_is(planet_type, "small_gas_planet") {
        small_gas_planet_shader(&fragment_default, uniforms).scale(intensity)
    } else {
        Color::new(100, 100, 100).scale(intensity)
    }
}

/// The fragment that the triangle leaves on pixel `(x, y)`, if it covers the
/// pixel's center.
fn sample(
    v1: &Vertex,
    v2: &Vertex,
    v3: &Vertex,
    area: i128,
    x: i32,
    y: i32,
    planet_type: &str,
    uniforms: &Uniforms,
) -> (f: Option<Fragment>)
    requires
        area == edge(
            screen_point(v1.transformed_position),
            screen_point(v2.transformed_position),
            screen_point(v3.transformed_position),
        ),
        -32768 <= x <= 32768,
        -32768 <= y <= 32768,
    ensures
        f is Some <==> covered_pixel(*v1, *v2, *v3, x as int, y as int),
        f is Some ==> f->0 == fragment_at(*v1, *v2, *v3, x as int, y as int, planet_type@),
{
    let a = v1.transformed_position;
    let b = v2.transformed_position;
    let c = v3.transformed_position;
    if x >= 32768 || y >= 32768 {
        proof {
            // The center lies beyond every coordinate that a corner can have.
            if covered_pixel(*v1, *v2, *v3, x as int, y as int) {
                lemma_covered_point_in_box(
                    screen_point(a),
                    screen_point(b),
                    screen_point(c),
                    pixel_center(x as int, y as int),
                );
            }
        }
        return None;
    }
    proof {
        lemma_edge_bound(a, b, c);
    }
    let point = Vec3::new(x * 65536 + 32768, y * 65536 + 32768, 0);
    let w = barycentric_coordinates(&point, &a, &b, &c, area);
    let total: i128 = if area < 0 { -area } else { area };
    proof {
        lemma_weights_sum_to_one(
            pixel_center(x as int, y as int),
            screen_point(a),
            screen_point(b),
            screen_point(c),
        );
    }
    if total > 0 && w.0 >= 0 && w.0 <= total && w.1 >= 0 && w.1 <= total && w.2 >= 0 && w.2
        <= total {
        let n1 = v1.transformed_normal;
        let n2 = v2.transformed_normal;
        let n3 = v3.transformed_normal;
        let normal = Vec3::new(
            interpolate(w, total, n1.x, n2.x, n3.x),
            interpolate(w, total, n1.y, n2.y, n3.y),
            interpolate(w, total, n1.z, n2.z, n3.z),
        ).normalize();
        let intensity = lighting(&normal);
        let depth = interpolate(w, total, a.z, b.z, c.z);
        let vertex_position = Vec3::new(
            interpolate(w, total, v1.position.x, v2.position.x, v3.position.x),
            interpolate(w, total, v1.position.y, v2.position.y, v3.position.y),
            interpolate(w, total, v1.position.z, v2.position.z, v3.position.z),
        );
        let color = get_shader_for_planet(planet_type, intensity, uniforms);
        Some(Fragment::new(x, y, color, depth, normal, intensity, vertex_position))
    } else {
        None
    }
}

/// Scans the triangle `v1`, `v2`, `v3`, given by its screen-space positions
/// and normals, into fragments: one for each pixel of its bounding box whose
/// center it covers, top row first and each row left to right. A triangle
/// of no area gives none.
pub fn triangle(
    v1: &Vertex,
    v2: &Vertex,
    v3: &Vertex,
    planet_type: &str,
    uniforms: &Uniforms,
) -> (fragments: Vec<Fragment>)
    ensures
        fragments@ == triangle_fragments(*v1, *v2, *v3, planet_type@),
{
    let mut fragments: Vec<Fragment> = Vec::new();
    let (a, b, c) = (v1.transformed_position, v2.transformed_position, v3.transformed_position);
    let (min_x, min_y, max_x, max_y) = calculate_bounding_box(&a, &b, &c);
    let triangle_area = edge_function(&a, &b, &c);
    let ghost name = planet_type@;
    let mut y: i32 = min_y;
    while y <= max_y
        invariant
            -32768 <= min_x <= max_x <= 32768,
            -32768 <= min_y <= y <= max_y + 1 <= 32769,
            name == planet_type@,
            triangle_area == edge(
                screen_point(v1.transformed_position),
                screen_point(v2.transformed_position),
                screen_point(v3.transformed_position),
            ),
            fragments@ == box_fragments(
                *v1,
                *v2,
                *v3,
                min_x as int,
                max_x + 1,
                min_y as int,
                y as int,
                name,
            ),
        decreases max_y - y + 1,
    {
        let ghost above = fragments@;
        let mut x: i32 = min_x;
        while x <= max_x
            invariant
                -32768 <= min_x <= x <= max_x + 1 <= 32769,
                -32768 <= y <= 32768,
                name == planet_type@,
                triangle_area == edge(
                    screen_point(v1.transformed_position),
                    screen_point(v2.transformed_position),
                    screen_point(v3.transformed_position),
                ),
                fragments@ == above + row_fragments(
                    *v1,
                    *v2,
                    *v3,
                    y as int,
                    min_x as int,
                    x as int,
                    name,
                ),
            decreases max_x - x + 1,
        {
            let ghost before = fragments@;
            match sample(v1, v2, v3, triangle_area, x, y, planet_type, uniforms) {
                Some(fragment) => {
                    fragments.push(fragment);
                },
                None => {},
            }
            proof {
                let row = row_fragments(*v1, *v2, *v3, y as int, min_x as int, x as int, name);
                let here = pixel_fragments(*v1, *v2, *v3, x as int, y as int, name);
                assert(fragments@ =~= before + here);
                assert(above + row + here =~= above + (row + here));
            }
            x = x + 1;
        }
        y = y + 1;
    }
    fragments
}

} // verus!
