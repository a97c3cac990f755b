use soft_render::fixed::HALF;
use soft_render::fixed::ONE;
use soft_render::matrix::clamp_to_i32;
use soft_render::framebuffer::DEPTH_INFINITY;
use soft_render::matrix::floor_quotient;
use soft_render::matrix::perspective_divide;
use soft_render::matrix::Mat4;
use soft_render::matrix::Vec4;
use soft_render::matrix::Wide4;
use soft_render::shaders::on_camera_plane;
use soft_render::shaders::vertex_shader;
use soft_render::uniforms::Uniforms;
use soft_render::vector::Vec2;
use soft_render::vector::Vec3;
use soft_render::vertex::Vertex;

fn diagonal(x: i32, y: i32, z: i32) -> Mat4 {
    let mut m = Mat4::identity();
    m.r0.x = x;
    m.r1.y = y;
    m.r2.z = z;
    m
}

fn coordinates(v: Wide4) -> (i128, i128, i128, i128) {
    (v.x, v.y, v.z, v.w)
}

fn vertex(position: Vec3, normal: Vec3) -> Vertex {
    Vertex::new(position, normal, Vec2::new(7, 9))
}

fn only(model: Mat4) -> Uniforms {
    Uniforms::new(model, Mat4::identity(), Mat4::identity(), Mat4::identity(), 0)
}

#[test]
fn identity_has_ones_on_the_diagonal() {
    let m = Mat4::identity();
    assert_eq!(m.r0, Vec4::new(ONE, 0, 0, 0));
    assert_eq!(m.r1, Vec4::new(0, ONE, 0, 0));
    assert_eq!(m.r2, Vec4::new(0, 0, ONE, 0));
    assert_eq!(m.r3, Vec4::new(0, 0, 0, ONE));
    assert_eq!(Mat4::new(m.r0, m.r1, m.r2, m.r3), m);
}

#[test]
fn clamp_holds_to_the_range_of_i32() {
    assert_eq!(clamp_to_i32(0), 0);
    assert_eq!(clamp_to_i32(-5), -5);
    assert_eq!(clamp_to_i32(i32::MAX as i128), i32::MAX);
    assert_eq!(clamp_to_i32(i32::MAX as i128 + 1), i32::MAX);
    assert_eq!(clamp_to_i32(i32::MIN as i128 - 1), i32::MIN);
    assert_eq!(clamp_to_i32(1 << 100), i32::MAX);
    assert_eq!(clamp_to_i32(-(1 << 100)), i32::MIN);
}

#[test]
fn floor_quotient_rounds_down_for_either_sign() {
    assert_eq!(floor_quotient(7, 2), 3);
    assert_eq!(floor_quotient(-7, 2), -4);
    assert_eq!(floor_quotient(7, -2), -4);
    assert_eq!(floor_quotient(-7, -2), 3);
    assert_eq!(floor_quotient(6, -2), -3);
    assert_eq!(floor_quotient(0, -9), 0);
}

#[test]
fn transform_by_the_identity_changes_nothing() {
    let v = Wide4 { x: 5, y: -6, z: 7 * 65536, w: 65536 };
    assert_eq!(coordinates(Mat4::identity().transform(&v)), (5, -6, 7 * 65536, 65536));
}

#[test]
fn transform_scales_and_moves() {
    let mut m = diagonal(2 * ONE, 3 * ONE, -ONE);
    m.r0.w = ONE;
    m.r1.w = 2 * ONE;
    m.r2.w = 3 * ONE;
    let one = ONE as i128;
    let v = Wide4 { x: one, y: one, z: one, w: one };
    assert_eq!(coordinates(m.transform(&v)), (3 * one, 5 * one, 2 * one, one));
    // a direction, with w = 0, is not moved
    let d = Wide4 { x: one, y: one, z: one, w: 0 };
    assert_eq!(coordinates(m.transform(&d)), (2 * one, 3 * one, -one, 0));
}

#[test]
fn transform_rounds_down() {
    let m = diagonal(HALF, HALF, HALF);
    let v = Wide4 { x: 3, y: -3, z: 1, w: 0 };
    assert_eq!(coordinates(m.transform(&v)), (1, -2, 0, 0));
}

#[test]
fn transform_of_wide_points_does_not_overflow() {
    let big = Vec4::new(i32::MAX, i32::MAX, i32::MAX, i32::MAX);
    let m = Mat4::new(big, big, big, big);
    let limit: i128 = 1 << 82;
    let v = Wide4 { x: limit, y: limit, z: limit, w: limit };
    let expected = (4 * (i32::MAX as i128) * limit) >> 16;
    assert_eq!(coordinates(m.transform(&v)), (expected, expected, expected, expected));
}

#[test]
fn normal_under_the_identity_stays() {
    let n = Vec3::new(123, -456, ONE);
    assert_eq!(Mat4::identity().transform_normal(&n), n);
}

#[test]
fn normal_under_a_stretch_shrinks_along_the_stretched_axis() {
    let m = diagonal(2 * ONE, ONE, ONE);
    assert_eq!(m.transform_normal(&Vec3::new(ONE, ONE, 0)), Vec3::new(HALF, ONE, 0));
    let m = diagonal(4 * ONE, 4 * ONE, 4 * ONE);
    assert_eq!(m.transform_normal(&Vec3::new(0, 0, ONE)), Vec3::new(0, 0, ONE / 4));
}

#[test]
fn normal_under_a_quarter_turn_turns_along() {
    let mut m = Mat4::identity();
    m.r0 = Vec4::new(0, -ONE, 0, 0);
    m.r1 = Vec4::new(ONE, 0, 0, 0);
    assert_eq!(m.transform_normal(&Vec3::new(ONE, 0, 0)), Vec3::new(0, ONE, 0));
    assert_eq!(m.transform_normal(&Vec3::new(0, ONE, 0)), Vec3::new(-ONE, 0, 0));
    assert_eq!(m.transform_normal(&Vec3::new(0, 0, ONE)), Vec3::new(0, 0, ONE));
}

#[test]
fn normal_under_a_mirror_keeps_its_size() {
    // the determinant is negative
    let m = diagonal(-ONE, ONE, ONE);
    assert_eq!(m.transform_normal(&Vec3::new(ONE, ONE, 3)), Vec3::new(-ONE, ONE, 3));
}

#[test]
fn normal_ignores_the_translation() {
    let mut m = diagonal(2 * ONE, 2 * ONE, 2 * ONE);
    m.r0.w = 99 * ONE;
    m.r3.x = 5;
    assert_eq!(m.transform_normal(&Vec3::new(ONE, 0, 0)), Vec3::new(HALF, 0, 0));
}

#[test]
fn normal_under_a_flattening_transform_stays() {
    let n = Vec3::new(ONE, 2 * ONE, 3 * ONE);
    assert_eq!(diagonal(ONE, ONE, 0).transform_normal(&n), n);
    assert_eq!(diagonal(0, 0, 0).transform_normal(&n), n);
    // two equal rows
    let mut m = Mat4::identity();
    m.r1 = m.r0;
    assert_eq!(m.transform_normal(&n), n);
}

#[test]
fn normal_out_of_range_is_held_to_the_range() {
    let m = diagonal(1, ONE, ONE);
    assert_eq!(m.transform_normal(&Vec3::new(ONE, 0, 0)), Vec3::new(i32::MAX, 0, 0));
    assert_eq!(m.transform_normal(&Vec3::new(-ONE, 0, 0)), Vec3::new(i32::MIN, 0, 0));
}

#[test]
fn vertex_shader_under_identity_transforms() {
    let v = vertex(Vec3::new(3 * ONE, -2 * ONE, HALF), Vec3::new(0, ONE, 0));
    let out = vertex_shader(&v, &only(Mat4::identity()));
    assert_eq!(out.transformed_position, Vec3::new(3 * ONE, -2 * ONE, HALF));
    assert_eq!(out.transformed_normal, Vec3::new(0, ONE, 0));
    assert_eq!(out.position, v.position);
    assert_eq!(out.normal, v.normal);
    assert_eq!(out.tex_coords, v.tex_coords);
    assert_eq!(out.color, v.color);
}

#[test]
fn vertex_shader_applies_model_then_view_then_projection() {
    // model: twice the size; view: two to the right; projection: z times three
    let model = diagonal(2 * ONE, 2 * ONE, 2 * ONE);
    let mut view = Mat4::identity();
    view.r0.w = 2 * ONE;
    let projection = diagonal(ONE, ONE, 3 * ONE);
    let u = Uniforms::new(model, view, projection, Mat4::identity(), 0);
    let v = vertex(Vec3::new(ONE, ONE, ONE), Vec3::new(0, 0, ONE));
    let out = vertex_shader(&v, &u);
    assert_eq!(out.transformed_position, Vec3::new(4 * ONE, 2 * ONE, 6 * ONE));
    assert_eq!(out.transformed_normal, Vec3::new(0, 0, HALF));
}

#[test]
fn vertex_shader_divides_by_w() {
    // w = -z, as a camera looking down the negative z axis has it
    let mut projection = Mat4::identity();
    projection.r3 = Vec4::new(0, 0, -ONE, 0);
    let u = Uniforms::new(Mat4::identity(), Mat4::identity(), projection, Mat4::identity(), 0);
    let out = vertex_shader(&vertex(Vec3::new(2 * ONE, 4 * ONE, -2 * ONE), Vec3::new(0, 0, ONE)), &u);
    assert_eq!(out.transformed_position, Vec3::new(ONE, 2 * ONE, -ONE));
    let out = vertex_shader(&vertex(Vec3::new(3 * ONE, 0, -2 * ONE), Vec3::new(0, 0, ONE)), &u);
    assert_eq!(out.transformed_position, Vec3::new(ONE + HALF, 0, -ONE));
    // behind the camera w is negative
    let out = vertex_shader(&vertex(Vec3::new(2 * ONE, 4 * ONE, 2 * ONE), Vec3::new(0, 0, ONE)), &u);
    assert_eq!(out.transformed_position, Vec3::new(-ONE, -2 * ONE, -ONE));
    // the quotient is rounded down
    let out = vertex_shader(&vertex(Vec3::new(1, -1, 3 * ONE), Vec3::new(0, 0, ONE)), &u);
    assert_eq!(out.transformed_position, Vec3::new(-1, 0, -ONE));
}

#[test]
fn vertex_shader_on_the_camera_plane_still_gives_the_vertex() {
    let mut projection = Mat4::identity();
    projection.r3 = Vec4::new(0, 0, -ONE, 0);
    let model = diagonal(2 * ONE, ONE, ONE);
    let u = Uniforms::new(model, Mat4::identity(), projection, Mat4::identity(), 0);
    let v = vertex(Vec3::new(ONE, -ONE, 0), Vec3::new(ONE, ONE, 0));
    assert!(on_camera_plane(&v, &u));
    let out = vertex_shader(&v, &u);
    assert_eq!(out.position, v.position);
    assert_eq!(out.normal, v.normal);
    assert_eq!(out.tex_coords, v.tex_coords);
    assert_eq!(out.color, v.color);
    assert_eq!(out.transformed_normal, Vec3::new(HALF, ONE, 0));
    // x over zero, -y over zero, zero over zero
    assert_eq!(out.transformed_position, Vec3::new(i32::MAX, i32::MIN, 0));
}

#[test]
fn vertex_shader_under_a_projection_of_zeros() {
    let zero = Vec4::new(0, 0, 0, 0);
    let projection = Mat4::new(zero, zero, zero, zero);
    let u = Uniforms::new(Mat4::identity(), Mat4::identity(), projection, Mat4::identity(), 0);
    let v = vertex(Vec3::new(3 * ONE, 4 * ONE, 5 * ONE), Vec3::new(0, 0, ONE));
    assert!(on_camera_plane(&v, &u));
    let out = vertex_shader(&v, &u);
    assert_eq!(out.position, v.position);
    assert_eq!(out.normal, v.normal);
    assert_eq!(out.tex_coords, v.tex_coords);
    assert_eq!(out.color, v.color);
    assert_eq!(out.transformed_normal, Vec3::new(0, 0, ONE));
    assert_eq!(out.transformed_position, Vec3::new(0, 0, 0));
}

#[test]
fn on_camera_plane_tells_where_w_is_zero() {
    let mut projection = Mat4::identity();
    projection.r3 = Vec4::new(0, 0, -ONE, 0);
    let u = Uniforms::new(Mat4::identity(), Mat4::identity(), projection, Mat4::identity(), 0);
    assert!(on_camera_plane(&vertex(Vec3::new(ONE, ONE, 0), Vec3::new(0, 0, ONE)), &u));
    assert!(!on_camera_plane(&vertex(Vec3::new(ONE, ONE, 1), Vec3::new(0, 0, ONE)), &u));
    assert!(!on_camera_plane(&vertex(Vec3::new(ONE, ONE, -1), Vec3::new(0, 0, ONE)), &u));
    // without a perspective w is one everywhere
    let flat = only(Mat4::identity());
    assert!(!on_camera_plane(&vertex(Vec3::new(0, 0, 0), Vec3::new(0, 0, ONE)), &flat));
}

#[test]
fn vertex_shader_holds_depth_below_infinity() {
    let u = only(Mat4::identity());
    let out = vertex_shader(&vertex(Vec3::new(0, 0, i32::MAX), Vec3::new(0, 0, ONE)), &u);
    assert_eq!(out.transformed_position, Vec3::new(0, 0, DEPTH_INFINITY - 1));
    let out = vertex_shader(&vertex(Vec3::new(0, 0, i32::MAX - 1), Vec3::new(0, 0, ONE)), &u);
    assert_eq!(out.transformed_position, Vec3::new(0, 0, i32::MAX - 1));
    let u = only(diagonal(ONE, ONE, i32::MAX));
    let out = vertex_shader(&vertex(Vec3::new(0, 0, i32::MAX), Vec3::new(0, 0, ONE)), &u);
    assert_eq!(out.transformed_position.z, DEPTH_INFINITY - 1);
    let out = vertex_shader(&vertex(Vec3::new(0, 0, i32::MIN), Vec3::new(0, 0, ONE)), &u);
    assert_eq!(out.transformed_position.z, i32::MIN);
}

#[test]
fn perspective_divide_by_either_sign_and_by_zero() {
    let one = ONE as i128;
    assert_eq!(perspective_divide(6 * one, 2 * one), 3 * ONE);
    assert_eq!(perspective_divide(6 * one, -2 * one), -3 * ONE);
    assert_eq!(perspective_divide(1, 3 * one), 0);
    assert_eq!(perspective_divide(-1, 3 * one), -1);
    assert_eq!(perspective_divide(one << 60, 1), i32::MAX);
    assert_eq!(perspective_divide(7, 0), i32::MAX);
    assert_eq!(perspective_divide(-7, 0), i32::MIN);
    assert_eq!(perspective_divide(0, 0), 0);
}

#[test]
fn vertex_shader_maps_device_coordinates_to_pixels() {
    // the viewport of a frame of 800 by 600 pixels, with y pointing down
    let viewport = Mat4::new(
        Vec4::new(400 * ONE, 0, 0, 400 * ONE),
        Vec4::new(0, -300 * ONE, 0, 300 * ONE),
        Vec4::new(0, 0, ONE, 0),
        Vec4::new(0, 0, 0, ONE),
    );
    let u = Uniforms::new(Mat4::identity(), Mat4::identity(), Mat4::identity(), viewport, 0);
    let out = vertex_shader(&vertex(Vec3::new(0, 0, 0), Vec3::new(0, 0, ONE)), &u);
    assert_eq!(out.transformed_position, Vec3::new(400 * ONE, 300 * ONE, 0));
    let out = vertex_shader(&vertex(Vec3::new(HALF, HALF, ONE / 4), Vec3::new(0, 0, ONE)), &u);
    assert_eq!(out.transformed_position, Vec3::new(600 * ONE, 150 * ONE, ONE / 4));
    let out = vertex_shader(&vertex(Vec3::new(-ONE, ONE, -ONE), Vec3::new(0, 0, ONE)), &u);
    assert_eq!(out.transformed_position, Vec3::new(0, 0, -ONE));
}

#[test]
fn vertex_shader_holds_far_away_points_to_the_range() {
    let u = only(diagonal(i32::MAX, i32::MIN, ONE));
    let v = vertex(Vec3::new(i32::MAX, i32::MAX, 5), Vec3::new(0, 0, ONE));
    let out = vertex_shader(&v, &u);
    assert_eq!(out.transformed_position, Vec3::new(i32::MAX, i32::MIN, 5));
}

#[test]
fn vertex_shader_keeps_the_normal_where_the_model_cannot_be_inverted() {
    let u = only(diagonal(ONE, 0, ONE));
    let v = vertex(Vec3::new(ONE, ONE, ONE), Vec3::new(ONE, 2 * ONE, 3 * ONE));
    let out = vertex_shader(&v, &u);
    assert_eq!(out.transformed_position, Vec3::new(ONE, 0, ONE));
    assert_eq!(out.transformed_normal, Vec3::new(ONE, 2 * ONE, 3 * ONE));
}
