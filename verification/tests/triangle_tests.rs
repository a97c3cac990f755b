use soft_render::color::Color;
use soft_render::fixed::HALF;
use soft_render::fixed::ONE;
use soft_render::fragment::Pixel;
use soft_render::triangle::barycentric_coordinates;
use soft_render::triangle::calculate_bounding_box;
use soft_render::triangle::edge_function;
use soft_render::triangle::get_shader_for_planet;
use soft_render::triangle::interpolate;
use soft_render::triangle::lighting;
use soft_render::triangle::triangle;
use soft_render::matrix::Mat4;
use soft_render::uniforms::Uniforms;
use soft_render::vector::Vec2;
use soft_render::vector::Vec3;
use soft_render::vertex::Vertex;

fn frame(time: u32) -> Uniforms {
    Uniforms::new(Mat4::identity(), Mat4::identity(), Mat4::identity(), Mat4::identity(), time)
}

const UNIT: i128 = 65536 * 65536;

fn screen_vertex(x: i32, y: i32, z: i32, normal: Vec3) -> Vertex {
    let mut v = Vertex::new(Vec3::new(x, y, z), normal, Vec2::new(0, 0));
    v.set_transformed(Vec3::new(x, y, z), normal);
    v
}

fn corner_triangle() -> (Vertex, Vertex, Vertex) {
    let up = Vec3::new(0, 0, ONE);
    (
        screen_vertex(0, 0, 0, up),
        screen_vertex(4 * ONE, 0, 0, up),
        screen_vertex(0, 4 * ONE, 0, up),
    )
}

fn center(x: i32, y: i32) -> Vec3 {
    Vec3::new(x * ONE + HALF, y * ONE + HALF, 0)
}

#[test]
fn edge_function_is_twice_the_signed_area() {
    let a = Vec3::new(0, 0, 0);
    let b = Vec3::new(4 * ONE, 0, 0);
    let c = Vec3::new(0, 4 * ONE, 0);
    assert_eq!(edge_function(&a, &b, &c), -16 * UNIT);
    assert_eq!(edge_function(&a, &c, &b), 16 * UNIT);
    assert_eq!(edge_function(&b, &c, &a), -16 * UNIT);
    assert_eq!(edge_function(&c, &a, &b), -16 * UNIT);
}

#[test]
fn edge_function_of_a_line_is_zero() {
    let a = Vec3::new(0, 0, 0);
    let b = Vec3::new(ONE, ONE, 0);
    let c = Vec3::new(3 * ONE, 3 * ONE, 0);
    assert_eq!(edge_function(&a, &b, &c), 0);
}

#[test]
fn edge_function_of_extremes_does_not_overflow() {
    let a = Vec3::new(i32::MIN, i32::MIN, 0);
    let b = Vec3::new(i32::MAX, i32::MIN, 0);
    let c = Vec3::new(i32::MIN, i32::MAX, 0);
    let side = (i32::MAX as i128) - (i32::MIN as i128);
    assert_eq!(edge_function(&a, &b, &c), -side * side);
}

#[test]
fn weights_add_up_to_the_area() {
    let a = Vec3::new(0, 0, 0);
    let b = Vec3::new(4 * ONE, 0, 0);
    let c = Vec3::new(0, 4 * ONE, 0);
    let area = edge_function(&a, &b, &c);
    let w = barycentric_coordinates(&center(1, 1), &a, &b, &c, area);
    assert_eq!(w, (4 * UNIT, 6 * UNIT, 6 * UNIT));
    assert_eq!(w.0 + w.1 + w.2, 16 * UNIT);
    // also far outside the triangle
    let w = barycentric_coordinates(&center(-7, 30), &a, &b, &c, area);
    assert_eq!(w.0 + w.1 + w.2, 16 * UNIT);
    assert!(w.1 < 0);
}

#[test]
fn weights_do_not_depend_on_the_winding() {
    let a = Vec3::new(0, 0, 0);
    let b = Vec3::new(4 * ONE, 0, 0);
    let c = Vec3::new(0, 4 * ONE, 0);
    let area = edge_function(&a, &c, &b);
    assert!(area > 0);
    let w = barycentric_coordinates(&center(1, 1), &a, &c, &b, area);
    assert_eq!(w, (4 * UNIT, 6 * UNIT, 6 * UNIT));
}

#[test]
fn weights_at_the_corners() {
    let a = Vec3::new(ONE, ONE, 0);
    let b = Vec3::new(5 * ONE, 2 * ONE, 0);
    let c = Vec3::new(2 * ONE, 6 * ONE, 0);
    let area = edge_function(&a, &b, &c);
    let total = area.abs();
    assert_eq!(total, 19 * UNIT);
    assert_eq!(barycentric_coordinates(&a, &a, &b, &c, area), (total, 0, 0));
    assert_eq!(barycentric_coordinates(&b, &a, &b, &c, area), (0, total, 0));
    assert_eq!(barycentric_coordinates(&c, &a, &b, &c, area), (0, 0, total));
}

#[test]
fn weights_strictly_inside_are_strictly_between_zero_and_one() {
    let a = Vec3::new(ONE, ONE, 0);
    let b = Vec3::new(5 * ONE, 2 * ONE, 0);
    let c = Vec3::new(2 * ONE, 6 * ONE, 0);
    let area = edge_function(&a, &b, &c);
    let total = area.abs();
    // the centroid, and a point near corner c
    let centroid = Vec3::new((8 * ONE) / 3, 3 * ONE, 0);
    for p in [centroid, Vec3::new(2 * ONE, 5 * ONE, 0), center(2, 2)] {
        let w = barycentric_coordinates(&p, &a, &b, &c, area);
        assert!(0 < w.0 && w.0 < total);
        assert!(0 < w.1 && w.1 < total);
        assert!(0 < w.2 && w.2 < total);
    }
}

#[test]
fn bounding_box_rounds_outward() {
    let a = Vec3::new(0, 0, 0);
    let b = Vec3::new(4 * ONE, 0, 0);
    let c = Vec3::new(0, 4 * ONE, 0);
    assert_eq!(calculate_bounding_box(&a, &b, &c), (0, 0, 4, 4));
    let a = Vec3::new(HALF, -HALF, 0);
    let b = Vec3::new(ONE + ONE / 4, 3 * ONE + 1, 0);
    let c = Vec3::new(-1, 2 * ONE, 0);
    assert_eq!(calculate_bounding_box(&a, &b, &c), (-1, -1, 2, 4));
}

#[test]
fn bounding_box_of_extremes() {
    let a = Vec3::new(i32::MIN, i32::MAX, 0);
    let b = Vec3::new(i32::MAX, i32::MIN, 0);
    let c = Vec3::new(0, 0, 0);
    assert_eq!(calculate_bounding_box(&a, &b, &c), (-32768, -32768, 32768, 32768));
}

#[test]
fn interpolate_is_the_weighted_mean_rounded_down() {
    assert_eq!(interpolate((1, 1, 2), 4, 10, 20, 30), 22);
    assert_eq!(interpolate((1, 1, 2), 4, -10, -20, -30), -23);
    assert_eq!(interpolate((4, 0, 0), 4, 7, 100, -100), 7);
    assert_eq!(interpolate((0, 0, 4), 4, 7, 100, -100), -100);
    assert_eq!(interpolate((1, 1, 1), 3, i32::MAX, i32::MAX, i32::MAX), i32::MAX);
    assert_eq!(interpolate((1, 1, 1), 3, i32::MIN, i32::MIN, i32::MIN), i32::MIN);
}

#[test]
fn lighting_is_the_z_of_the_normal_held_to_zero_and_one() {
    assert_eq!(lighting(&Vec3::new(0, 0, ONE)), ONE);
    assert_eq!(lighting(&Vec3::new(0, 0, HALF)), HALF);
    assert_eq!(lighting(&Vec3::new(ONE, 0, 0)), 0);
    assert_eq!(lighting(&Vec3::new(0, 0, -ONE)), 0);
    assert_eq!(lighting(&Vec3::new(0, 0, 5 * ONE)), ONE);
    assert_eq!(lighting(&Vec3::new(39321, 0, 52428)), 52428);
}

#[test]
fn placeholder_color_by_surface_name() {
    let u = frame(0);
    for name in ["sun", "rocky_planet", "gas_giant", "small_gas_planet"] {
        assert_eq!(get_shader_for_planet(name, ONE, &u), Color::black());
        assert_eq!(get_shader_for_planet(name, HALF, &u), Color::black());
    }
    assert_eq!(get_shader_for_planet("moon", ONE, &u), Color::new(100, 100, 100));
    assert_eq!(get_shader_for_planet("moon", HALF, &u), Color::new(50, 50, 50));
    assert_eq!(get_shader_for_planet("Sun", ONE, &u), Color::new(100, 100, 100));
    assert_eq!(get_shader_for_planet("", 0, &u), Color::black());
}

#[test]
fn corner_triangle_covers_ten_pixel_centers() {
    let (v1, v2, v3) = corner_triangle();
    let fragments = triangle(&v1, &v2, &v3, "sun", &frame(0));
    let pixels: Vec<(i32, i32)> = fragments.iter().map(|f| (f.position.x, f.position.y)).collect();
    assert_eq!(
        pixels,
        vec![(0, 0), (1, 0), (2, 0), (3, 0), (0, 1), (1, 1), (2, 1), (0, 2), (1, 2), (0, 3)]
    );
    for f in &fragments {
        assert_eq!(f.intensity, ONE);
        assert_eq!(f.depth, 0);
        assert_eq!(f.normal, Vec3::new(0, 0, ONE));
        assert_eq!(f.color, Color::black());
        assert_eq!(
            f.vertex_position,
            Vec3::new(f.position.x * ONE + HALF, f.position.y * ONE + HALF, 0)
        );
    }
}

#[test]
fn winding_does_not_change_the_fragments() {
    let (v1, v2, v3) = corner_triangle();
    let u = frame(0);
    assert_eq!(triangle(&v1, &v2, &v3, "sun", &u), triangle(&v1, &v3, &v2, "sun", &u));
}

#[test]
fn depth_and_normal_are_interpolated() {
    let a = screen_vertex(0, 0, 0, Vec3::new(0, 0, ONE));
    let b = screen_vertex(4 * ONE, 0, 4 * ONE, Vec3::new(ONE, 0, 0));
    let c = screen_vertex(0, 4 * ONE, 8 * ONE, Vec3::new(0, 0, ONE));
    let fragments = triangle(&a, &b, &c, "moon", &frame(0));
    assert_eq!(fragments.len(), 10);
    let f = fragments.iter().find(|f| f.position == Pixel { x: 1, y: 1 }).unwrap();
    // at (1.5, 1.5) the weights are 4/16, 6/16, 6/16
    assert_eq!(f.depth, (6 * 4 * ONE + 6 * 8 * ONE) / 16);
    // the mean normal is (0.375, 0, 0.625); scaled to length one it is
    // (0.51449..., 0, 0.85749...)
    assert_eq!(f.normal, Vec3::new(33717, 0, 56196));
    assert_eq!(f.intensity, 56196);
    // 100 * 0.85749 = 85.7
    assert_eq!(f.color, Color::new(85, 85, 85));
}

#[test]
fn surface_that_faces_away_gets_no_light() {
    let down = Vec3::new(0, 0, -ONE);
    let a = screen_vertex(0, 0, 0, down);
    let b = screen_vertex(4 * ONE, 0, 0, down);
    let c = screen_vertex(0, 4 * ONE, 0, down);
    let fragments = triangle(&a, &b, &c, "moon", &frame(0));
    assert_eq!(fragments.len(), 10);
    for f in &fragments {
        assert_eq!(f.intensity, 0);
        assert_eq!(f.normal, down);
        assert_eq!(f.color, Color::black());
    }
}

#[test]
fn zero_normals_give_no_light() {
    let zero = Vec3::new(0, 0, 0);
    let a = screen_vertex(0, 0, 0, zero);
    let b = screen_vertex(2 * ONE, 0, 0, zero);
    let c = screen_vertex(0, 2 * ONE, 0, zero);
    let fragments = triangle(&a, &b, &c, "moon", &frame(0));
    assert_eq!(fragments.len(), 3);
    for f in &fragments {
        assert_eq!(f.intensity, 0);
        assert_eq!(f.normal, zero);
    }
}

#[test]
fn triangle_of_no_area_gives_no_fragments() {
    let up = Vec3::new(0, 0, ONE);
    let a = screen_vertex(HALF, HALF, 0, up);
    let b = screen_vertex(2 * ONE + HALF, 2 * ONE + HALF, 0, up);
    let c = screen_vertex(4 * ONE + HALF, 4 * ONE + HALF, 0, up);
    assert!(triangle(&a, &b, &c, "sun", &frame(0)).is_empty());
    assert!(triangle(&a, &a, &a, "sun", &frame(0)).is_empty());
}

#[test]
fn triangle_between_pixel_centers_gives_no_fragments() {
    let up = Vec3::new(0, 0, ONE);
    let a = screen_vertex(ONE, ONE, 0, up);
    let b = screen_vertex(ONE + HALF - 1, ONE, 0, up);
    let c = screen_vertex(ONE, ONE + HALF - 1, 0, up);
    assert!(triangle(&a, &b, &c, "sun", &frame(0)).is_empty());
}

#[test]
fn triangle_at_negative_coordinates() {
    let up = Vec3::new(0, 0, ONE);
    let a = screen_vertex(-2 * ONE, -2 * ONE, 0, up);
    let b = screen_vertex(0, -2 * ONE, 0, up);
    let c = screen_vertex(-2 * ONE, 0, 0, up);
    let fragments = triangle(&a, &b, &c, "sun", &frame(0));
    let pixels: Vec<(i32, i32)> = fragments.iter().map(|f| (f.position.x, f.position.y)).collect();
    assert_eq!(pixels, vec![(-2, -2), (-1, -2), (-2, -1)]);
}

#[test]
fn triangle_at_the_end_of_the_range() {
    let up = Vec3::new(0, 0, ONE);
    let a = screen_vertex(i32::MAX, i32::MAX, 0, up);
    let b = screen_vertex(i32::MAX - 2 * ONE, i32::MAX, 0, up);
    let c = screen_vertex(i32::MAX, i32::MAX - 2 * ONE, 0, up);
    let fragments = triangle(&a, &b, &c, "sun", &frame(0));
    let pixels: Vec<(i32, i32)> = fragments.iter().map(|f| (f.position.x, f.position.y)).collect();
    assert_eq!(pixels, vec![(32767, 32766), (32766, 32767), (32767, 32767)]);
}
