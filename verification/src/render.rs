//! The draw call: the triangles of a mesh are scanned into fragments, each
//! fragment is shaded, and what passes the depth test is stored.

use crate::color::packed;
use crate::color::Color;
use crate::fixed::ONE;
use crate::fragment::Fragment;
use crate::framebuffer::after_writes;
use crate::framebuffer::cell_shows_nearest;
use crate::framebuffer::lemma_cells_show_nearest_writes;
use crate::framebuffer::FrameState;
use crate::framebuffer::Framebuffer;
use crate::framebuffer::Write;
use crate::shaders::lies_on_camera_plane;
use crate::shaders::may_shade;
use crate::shaders::name_is;
use crate::shaders::on_camera_plane;
use crate::shaders::shaded_vertex;
use crate::shaders::vertex_shader;
use crate::shaders::Shader;
use crate::triangle::covered_pixel;
use crate::triangle::fragment_at;
use crate::triangle::is_fragment_of;
use crate::triangle::lemma_covered_pixel_in_box;
use crate::triangle::lemma_fragments_are_covered_pixels;
use crate::triangle::triangle;
use crate::triangle::triangle_fragments;
use crate::uniforms::Uniforms;
use crate::vertex::Vertex;
use vstd::prelude::*;

verus! {

/// The shader of a surface type: `sun`, `rocky`, `gas_giant` and `small_gas`
/// have their own, every other name gets the dither.
pub open spec fn shader_named(name: Seq<char>) -> Shader {
    if name == "sun"@ {
        Shader::Sun
    } else if name == "rocky"@ {
        Shader::RockyPlanet
    } else if name == "gas_giant"@ {
        Shader::GasGiant
    } else if name == "small_gas"@ {
        Shader::SmallGasPlanet
    } else {
        Shader::BlackAndWhite
    }
}

/// The vertices of a mesh after the vertex shader, in order.
pub open spec fn shaded_vertices(vertices: Seq<Vertex>, u: Uniforms) -> Seq<Vertex> {
    Seq::new(vertices.len(), |i: int| shaded_vertex(vertices[i], u))
}

/// Whether triangle number `t` of a mesh has a corner on the plane of the
/// camera. Such a corner has no place on the screen, so the triangle is not
/// drawn.
pub open spec fn has_corner_on_camera_plane(vertices: Seq<Vertex>, u: Uniforms, t: int) -> bool {
    ||| lies_on_camera_plane(vertices[3 * t], u)
    ||| lies_on_camera_plane(vertices[3 * t + 1], u)
    ||| lies_on_camera_plane(vertices[3 * t + 2], u)
}

/// The fragments of triangle number `t` of a mesh: those of the triangle of
/// its three shaded corners, or none where a corner lies on the plane of the
/// camera.
pub open spec fn corner_fragments(vertices: Seq<Vertex>, u: Uniforms, name: Seq<char>, t: int) -> Seq<
    Fragment,
> {
    if has_corner_on_camera_plane(vertices, u, t) {
        Seq::empty()
    } else {
        triangle_fragments(
            shaded_vertex(vertices[3 * t], u),
            shaded_vertex(vertices[3 * t + 1], u),
            shaded_vertex(vertices[3 * t + 2], u),
            name,
        )
    }
}

/// The fragments of the first `n` triangles of a mesh, in which every three
/// vertices in a row make one triangle.
pub open spec fn triangles_fragments(vertices: Seq<Vertex>, u: Uniforms, name: Seq<char>, n: nat) -> Seq<
    Fragment,
>
    decreases n,
{
    if n == 0 {
        Seq::empty()
    } else {
        triangles_fragments(vertices, u, name, (n - 1) as nat) + corner_fragments(
            vertices,
            u,
            name,
            n - 1,
        )
    }
}

/// The fragments of a mesh in one draw call: its vertices go through the
/// vertex shader, and its triangles are scanned in order. One or two
/// vertices left over at the end make no triangle.
pub open spec fn mesh_fragments(vertices: Seq<Vertex>, u: Uniforms, name: Seq<char>) -> Seq<
    Fragment,
> {
    triangles_fragments(vertices, u, name, (vertices.len() / 3) as nat)
}

/// The state after one fragment was offered with the color that the shader
/// gave it. A fragment off the frame, to any side, changes nothing.
pub open spec fn offer(s: FrameState, f: Fragment, c: Color) -> FrameState {
    if s.in_bounds(f.position.x as int, f.position.y as int) {
        s.write(f.position.x as int, f.position.y as int, f.depth, packed(c))
    } else {
        s
    }
}

/// The state after each of `fragments` was offered, first to last, with the
/// color of the same number in `colors`.
pub open spec fn composite(s: FrameState, fragments: Seq<Fragment>, colors: Seq<Color>) -> FrameState
    decreases fragments.len(),
{
    if fragments.len() == 0 {
        s
    } else {
        offer(
            composite(s, fragments.drop_last(), colors.drop_last()),
            fragments.last(),
            colors.last(),
        )
    }
}

/// Whether `colors` are colors that `shader` may give to `fragments`, one
/// each. Only the fragments on the frame are shaded.
pub open spec fn shaded_by(
    shader: Shader,
    uniforms: Uniforms,
    s: FrameState,
    fragments: Seq<Fragment>,
    colors: Seq<Color>,
) -> bool {
    &&& colors.len() == fragments.len()
    &&& forall|i: int|
        0 <= i < fragments.len() && s.in_bounds(
            fragments[i].position.x as int,
            fragments[i].position.y as int,
        ) ==> may_shade(shader, fragments[i], uniforms, #[trigger] colors[i])
}

/// Offering fragments keeps a state well formed and of its size.
pub proof fn lemma_composite_keeps_frame(s: FrameState, fragments: Seq<Fragment>, colors: Seq<Color>)
    requires
        s.wf(),
    ensures
        composite(s, fragments, colors).wf(),
        composite(s, fragments, colors).width == s.width,
        composite(s, fragments, colors).height == s.height,
        composite(s, fragments, colors).background == s.background,
    decreases fragments.len(),
{
    if fragments.len() > 0 {
        lemma_composite_keeps_frame(s, fragments.drop_last(), colors.drop_last());
        let before = composite(s, fragments.drop_last(), colors.drop_last());
        let f = fragments.last();
        if before.in_bounds(f.position.x as int, f.position.y as int) {
            crate::framebuffer::lemma_index_in_range(
                before.set_current_color(packed(colors.last())),
                f.position.x as int,
                f.position.y as int,
            );
        }
    }
}

/// The writes that a draw call makes: one per fragment, at the fragment's
/// pixel and depth, in the color that the shader gave it.
pub open spec fn fragment_writes(fragments: Seq<Fragment>, colors: Seq<Color>) -> Seq<Write> {
    Seq::new(
        fragments.len(),
        |i: int|
            Write {
                x: fragments[i].position.x as int,
                y: fragments[i].position.y as int,
                depth: fragments[i].depth,
                color: packed(colors[i]),
            },
    )
}

/// Whether two states show the same picture: the same planes of the same
/// size over the same background. The current color is no part of it.
pub open spec fn same_picture(a: FrameState, b: FrameState) -> bool {
    &&& a.width == b.width
    &&& a.height == b.height
    &&& a.colors == b.colors
    &&& a.depths == b.depths
    &&& a.background == b.background
}

/// A draw call is a run of depth-tested writes: offering fragments leaves
/// the picture that making their writes one by one leaves.
pub proof fn lemma_composite_is_writes(s: FrameState, fragments: Seq<Fragment>, colors: Seq<Color>)
    requires
        colors.len() == fragments.len(),
    ensures
        same_picture(
            composite(s, fragments, colors),
            after_writes(s, fragment_writes(fragments, colors)),
        ),
    decreases fragments.len(),
{
    let writes = fragment_writes(fragments, colors);
    if fragments.len() > 0 {
        lemma_composite_is_writes(s, fragments.drop_last(), colors.drop_last());
        assert(writes.drop_last() =~= fragment_writes(fragments.drop_last(), colors.drop_last()));
    }
}

/// What a draw call on a cleared frame leaves in a cell: the depth and the
/// color of the nearest fragment that was offered to the cell, of the first
/// among equally near ones, or the background at infinite depth; and no
/// fragment offered to the cell is nearer than what the cell holds.
pub proof fn lemma_draw_call_shows_nearest(
    s: FrameState,
    fragments: Seq<Fragment>,
    colors: Seq<Color>,
    i: int,
)
    requires
        s.wf(),
        0 <= i < s.width * s.height,
        colors.len() == fragments.len(),
    ensures
        same_picture(
            composite(s.clear(), fragments, colors),
            after_writes(s.clear(), fragment_writes(fragments, colors)),
        ),
        cell_shows_nearest(s, fragment_writes(fragments, colors), i),
{
    lemma_composite_is_writes(s.clear(), fragments, colors);
    lemma_cells_show_nearest_writes(s, fragment_writes(fragments, colors), i);
}

/// Fragments that all lie off the frame leave it as it was.
pub proof fn lemma_off_frame_fragments_change_nothing(
    s: FrameState,
    fragments: Seq<Fragment>,
    colors: Seq<Color>,
)
    requires
        forall|i: int|
            0 <= i < fragments.len() ==> !s.in_bounds(
                (#[trigger] fragments[i]).position.x as int,
                fragments[i].position.y as int,
            ),
    ensures
        composite(s, fragments, colors) == s,
    decreases fragments.len(),
{
    if fragments.len() > 0 {
        let rest = fragments.drop_last();
        assert forall|i: int| 0 <= i < rest.len() implies !s.in_bounds(
            (#[trigger] rest[i]).position.x as int,
            rest[i].position.y as int,
        ) by {
            assert(rest[i] == fragments[i]);
        }
        lemma_off_frame_fragments_change_nothing(s, rest, colors.drop_last());
        assert(fragments.last() == fragments[fragments.len() - 1]);
    }
}

/// Whether the triangle lies wholly to one side of the frame: left of it,
/// above it, right of it or below it.
pub open spec fn off_frame(s: FrameState, v1: Vertex, v2: Vertex, v3: Vertex) -> bool {
    let a = v1.transformed_position;
    let b = v2.transformed_position;
    let c = v3.transformed_position;
    ||| (a.x < 0 && b.x < 0 && c.x < 0)
    ||| (a.y < 0 && b.y < 0 && c.y < 0)
    ||| (a.x >= s.width * ONE && b.x >= s.width * ONE && c.x >= s.width * ONE)
    ||| (a.y >= s.height * ONE && b.y >= s.height * ONE && c.y >= s.height * ONE)
}

/// A triangle that lies wholly to one side of the frame writes nothing: the
/// frame is the same after its fragments were offered, whatever their
/// colors.
pub proof fn lemma_triangle_off_frame_writes_nothing(
    s: FrameState,
    v1: Vertex,
    v2: Vertex,
    v3: Vertex,
    name: Seq<char>,
    colors: Seq<Color>,
)
    requires
        off_frame(s, v1, v2, v3),
    ensures
        composite(s, triangle_fragments(v1, v2, v3, name), colors) == s,
{
    let fragments = triangle_fragments(v1, v2, v3, name);
    lemma_fragments_are_covered_pixels(v1, v2, v3, name);
    assert forall|i: int| 0 <= i < fragments.len() implies !s.in_bounds(
        (#[trigger] fragments[i]).position.x as int,
        fragments[i].position.y as int,
    ) by {
        let f = fragments[i];
        assert(is_fragment_of(v1, v2, v3, name, f));
        let (x, y) = choose|x: int, y: int|
            covered_pixel(v1, v2, v3, x, y) && f == #[trigger] fragment_at(v1, v2, v3, x, y, name);
        lemma_covered_pixel_in_box(v1, v2, v3, x, y);
        assert(f.position.x == x && f.position.y == y);
        let w = s.width as int;
        let h = s.height as int;
        if x >= 0 && x < w {
            assert(x * 65536 + 32768 < w * 65536);
        }
        if y >= 0 && y < h {
            assert(y * 65536 + 32768 < h * 65536);
        }
    }
    lemma_off_frame_fragments_change_nothing(s, fragments, colors);
}

/// The shader of the surface type named.
pub fn select_shader(planet_type: &str) -> (s: Shader)
    ensures
        s == shader_named(planet_type@),
{
    if name_is(planet_type, "sun") {
        Shader::Sun
    } else if name_is(planet_type, "rocky") {
        Shader::RockyPlanet
    } else if name_is(planet_type, "gas_giant") {
        Shader::GasGiant
    } else if name_is(planet_type, "small_gas") {
        Shader::SmallGasPlanet
    } else {
        Shader::BlackAndWhite
    }
}

/// Draws a mesh into the framebuffer. Every vertex goes through the vertex
/// shader; every three vertices make a triangle, which is left out where one
/// of the three lies on the plane of the camera; each triangle is scanned into
/// fragments; each fragment on the frame is shaded by the shader of
/// `planet_type` and offered to its pixel at its depth. The frame ends as if
/// the fragments had been offered one by one, in order, each with a color
/// that the shader may give it.
pub fn render(
    framebuffer: &mut Framebuffer,
    uniforms: &Uniforms,
    vertex_array: &[Vertex],
    planet_type: &str,
)
    requires
        old(framebuffer).wf(),
    ensures
        final(framebuffer).wf(),
        exists|colors: Seq<Color>|
            {
                &&& shaded_by(
                    shader_named(planet_type@),
                    *uniforms,
                    old(framebuffer)@,
                    mesh_fragments(vertex_array@, *uniforms, planet_type@),
                    colors,
                )
                &&& final(framebuffer)@ == #[trigger] composite(
                    old(framebuffer)@,
                    mesh_fragments(vertex_array@, *uniforms, planet_type@),
                    colors,
                )
            },
{
    let shader = select_shader(planet_type);
    let ghost name = planet_type@;
    let ghost start = framebuffer@;

    let mut transformed_vertices: Vec<Vertex> = Vec::with_capacity(vertex_array.len());
    let mut v: usize = 0;
    while v < vertex_array.len()
        invariant
            v <= vertex_array.len(),
            transformed_vertices@.len() == v,
            forall|j: int|
                0 <= j < v ==> transformed_vertices@[j] == shaded_vertex(
                    vertex_array@[j],
                    *uniforms,
                ),
        decreases vertex_array.len() - v,
    {
        let transformed = vertex_shader(&vertex_array[v], uniforms);
        transformed_vertices.push(transformed);
        v = v + 1;
    }

    let count: usize = vertex_array.len() / 3;
    let mut fragments: Vec<Fragment> = Vec::new();
    let mut t: usize = 0;
    while t < count
        invariant
            t <= count,
            count == vertex_array@.len() / 3,
            3 * count <= vertex_array@.len() <= usize::MAX,
            transformed_vertices@.len() == vertex_array@.len(),
            forall|j: int|
                0 <= j < vertex_array@.len() ==> transformed_vertices@[j] == shaded_vertex(
                    vertex_array@[j],
                    *uniforms,
                ),
            name == planet_type@,
            fragments@ == triangles_fragments(vertex_array@, *uniforms, name, t as nat),
        decreases count - t,
    {
        let i: usize = 3 * t;
        let degenerate = on_camera_plane(&vertex_array[i], uniforms) || on_camera_plane(
            &vertex_array[i + 1],
            uniforms,
        ) || on_camera_plane(&vertex_array[i + 2], uniforms);
        if degenerate {
            assert(fragments@ + Seq::<Fragment>::empty() =~= fragments@);
        } else {
            let mut more = triangle(
                &transformed_vertices[i],
                &transformed_vertices[i + 1],
                &transformed_vertices[i + 2],
                planet_type,
                uniforms,
            );
            fragments.append(&mut more);
        }
        t = t + 1;
    }

    let ghost all = fragments@;
    let ghost mut colors: Seq<Color> = Seq::empty();
    let mut k: usize = 0;
    proof {
        assert(all.take(0) =~= Seq::<Fragment>::empty());
    }
    while k < fragments.len()
        invariant
            k <= fragments.len(),
            fragments@ == all,
            framebuffer.wf(),
            start.wf(),
            framebuffer@.width == start.width,
            framebuffer@.height == start.height,
            shaded_by(shader, *uniforms, start, all.take(k as int), colors),
            framebuffer@ == composite(start, all.take(k as int), colors),
        decreases fragments.len() - k,
    {
        let fragment = fragments[k];
        let ghost before = framebuffer@;
        let ghost mut color = Color { r: 0, g: 0, b: 0 };
        if fragment.position.x >= 0 && fragment.position.y >= 0 {
            let x = fragment.position.x as usize;
            let y = fragment.position.y as usize;
            if x < framebuffer.width() && y < framebuffer.height() {
                let shaded_color = shader.shade(&fragment, uniforms);
                proof {
                    color = shaded_color;
                }
                framebuffer.set_current_color(shaded_color.to_hex());
                framebuffer.point(x, y, fragment.depth);
            }
        }
        proof {
            let next = all.take(k + 1);
            assert(next.drop_last() =~= all.take(k as int));
            assert(next.last() == fragment);
            let grown = colors.push(color);
            assert(grown.drop_last() =~= colors);
            assert(framebuffer@ == offer(before, fragment, color));
            assert forall|i: int|
                0 <= i < next.len() && start.in_bounds(
                    next[i].position.x as int,
                    next[i].position.y as int,
                ) implies may_shade(shader, next[i], *uniforms, #[trigger] grown[i]) by {
                if i < k {
                    assert(next[i] == all.take(k as int)[i]);
                    assert(grown[i] == colors[i]);
                }
            }
            colors = grown;
        }
        k = k + 1;
    }
    proof {
        assert(all.take(k as int) =~= all);
        assert(all == mesh_fragments(vertex_array@, *uniforms, planet_type@));
        assert(shaded_by(shader_named(planet_type@), *uniforms, start, all, colors));
        assert(framebuffer@ == composite(
            start,
            mesh_fragments(vertex_array@, *uniforms, planet_type@),
            colors,
        ));
    }
}

} // verus!
