use soft_render::color::Color;
use soft_render::fixed::HALF;
use soft_render::fixed::ONE;
use soft_render::fragment::Fragment;
use soft_render::fragment::Pixel;
use soft_render::mesh::load_sphere_model;
use soft_render::matrix::Mat4;
use soft_render::uniforms::Uniforms;
use soft_render::vector::Vec2;
use soft_render::vector::Vec3;
use soft_render::vertex::Vertex;

fn a_fragment() -> Fragment {
    Fragment::new(
        3,
        -4,
        Color::new(200, 100, 50),
        77,
        Vec3::new(0, 0, ONE),
        HALF,
        Vec3::new(1, 2, 3),
    )
}

#[test]
fn fragment_new_keeps_every_field() {
    let f = a_fragment();
    assert_eq!(f.position, Pixel { x: 3, y: -4 });
    assert_eq!(f.color, Color::new(200, 100, 50));
    assert_eq!(f.depth, 77);
    assert_eq!(f.normal, Vec3::new(0, 0, ONE));
    assert_eq!(f.intensity, HALF);
    assert_eq!(f.vertex_position, Vec3::new(1, 2, 3));
}

#[test]
fn apply_lighting_dims_the_color_only() {
    let mut f = a_fragment();
    f.apply_lighting();
    let mut expected = a_fragment();
    expected.color = Color::new(100, 50, 25);
    assert_eq!(f, expected);
}

#[test]
fn interpolate_color_blends_the_color_only() {
    let mut f = a_fragment();
    f.interpolate_color(&Color::new(0, 0, 150), HALF);
    let mut expected = a_fragment();
    expected.color = Color::new(100, 50, 100);
    assert_eq!(f, expected);
}

#[test]
fn clone_fragment_is_equal() {
    let f = a_fragment();
    assert_eq!(f.clone_fragment(), f);
}

#[test]
fn vertex_new_starts_untransformed_and_black() {
    let v = Vertex::new(Vec3::new(1, 2, 3), Vec3::new(0, ONE, 0), Vec2::new(5, 6));
    assert_eq!(v.position, Vec3::new(1, 2, 3));
    assert_eq!(v.normal, Vec3::new(0, ONE, 0));
    assert_eq!(v.tex_coords, Vec2::new(5, 6));
    assert_eq!(v.color, Color::black());
    assert_eq!(v.transformed_position, v.position);
    assert_eq!(v.transformed_normal, v.normal);
}

#[test]
fn set_transformed_leaves_object_space_alone() {
    let mut v = Vertex::new(Vec3::new(1, 2, 3), Vec3::new(0, ONE, 0), Vec2::new(5, 6));
    v.set_transformed(Vec3::new(7, 8, 9), Vec3::new(ONE, 0, 0));
    assert_eq!(v.position, Vec3::new(1, 2, 3));
    assert_eq!(v.normal, Vec3::new(0, ONE, 0));
    assert_eq!(v.tex_coords, Vec2::new(5, 6));
    assert_eq!(v.transformed_position, Vec3::new(7, 8, 9));
    assert_eq!(v.transformed_normal, Vec3::new(ONE, 0, 0));
}

#[test]
fn uniforms_hold_the_transforms_and_the_frame_time() {
    let m = Mat4::identity();
    let mut v = Mat4::identity();
    v.r0.w = 5;
    let mut p = Mat4::identity();
    p.r3.z = -ONE;
    let mut s = Mat4::identity();
    s.r1.y = -ONE;
    let u = Uniforms::new(m, v, p, s, 42);
    assert_eq!(u.model_matrix, m);
    assert_eq!(u.view_matrix, v);
    assert_eq!(u.projection_matrix, p);
    assert_eq!(u.viewport_matrix, s);
    assert_eq!(u.time, 42);
}

#[test]
fn load_sphere_model_hands_the_vertices_on() {
    let v = Vertex::new(Vec3::new(1, 2, 3), Vec3::new(0, ONE, 0), Vec2::new(5, 6));
    let w = Vertex::new(Vec3::new(4, 5, 6), Vec3::new(ONE, 0, 0), Vec2::new(7, 8));
    let loaded = load_sphere_model(Some(vec![v, w]));
    assert_eq!(loaded, vec![v, w]);
    assert_eq!(load_sphere_model(Some(Vec::new())), Vec::new());
}
