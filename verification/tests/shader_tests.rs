use soft_render::color::Color;
use soft_render::fixed::HALF;
use soft_render::fixed::ONE;
use soft_render::fragment::Fragment;
use soft_render::shaders::black_and_white;
use soft_render::shaders::black_or_white;
use soft_render::shaders::fragment_shader;
use soft_render::shaders::gas_giant_color;
use soft_render::shaders::gas_giant_shader;
use soft_render::shaders::name_is;
use soft_render::shaders::rocky_planet_shader;
use soft_render::shaders::seed_for;
use soft_render::shaders::small_gas_planet_color;
use soft_render::shaders::small_gas_planet_shader;
use soft_render::shaders::sun_shader;
use soft_render::shaders::Shader;
use soft_render::matrix::Mat4;
use soft_render::uniforms::Uniforms;
use soft_render::vector::Vec3;

fn frame(time: u32) -> Uniforms {
    Uniforms::new(Mat4::identity(), Mat4::identity(), Mat4::identity(), Mat4::identity(), time)
}

fn lit(intensity: i32) -> Fragment {
    Fragment::new(0, 0, Color::black(), 0, Vec3::new(0, 0, ONE), intensity, Vec3::new(0, 0, 0))
}

fn at(x: i32, y: i32, intensity: i32) -> Fragment {
    Fragment::new(0, 0, Color::black(), 0, Vec3::new(0, 0, ONE), intensity, Vec3::new(x, y, 0))
}

#[test]
fn sun_is_yellow() {
    let u = frame(0);
    assert_eq!(sun_shader(&lit(ONE), &u), Color::new(255, 204, 0));
    assert_eq!(sun_shader(&lit(HALF), &u), Color::new(127, 102, 0));
    assert_eq!(sun_shader(&lit(0), &u), Color::black());
}

#[test]
fn rocky_planet_is_brown() {
    let u = frame(0);
    assert_eq!(rocky_planet_shader(&lit(ONE), &u), Color::new(139, 69, 19));
    assert_eq!(rocky_planet_shader(&lit(HALF), &u), Color::new(69, 34, 9));
}

#[test]
fn gas_giant_bands() {
    assert_eq!(gas_giant_color(true, ONE), Color::new(30, 144, 255));
    assert_eq!(gas_giant_color(false, ONE), Color::new(255, 69, 0));
    assert_eq!(gas_giant_color(true, HALF), Color::new(15, 72, 127));
    assert_eq!(gas_giant_color(false, HALF), Color::new(127, 34, 0));
}

#[test]
fn small_gas_planet_pinks() {
    assert_eq!(small_gas_planet_color(true, ONE), Color::new(255, 182, 193));
    assert_eq!(small_gas_planet_color(false, ONE), Color::new(255, 105, 180));
    assert_eq!(small_gas_planet_color(true, HALF), Color::new(127, 91, 96));
}

#[test]
fn gas_giant_shader_gives_one_of_its_two_bands() {
    let u = frame(0);
    let mut blue = 0;
    let mut orange = 0;
    for _ in 0..400 {
        let c = gas_giant_shader(&lit(ONE), &u);
        if c == Color::new(30, 144, 255) {
            blue += 1;
        } else {
            assert_eq!(c, Color::new(255, 69, 0));
            orange += 1;
        }
    }
    assert!(blue > 0 && orange > 0);
}

#[test]
fn small_gas_planet_shader_gives_one_of_its_two_pinks() {
    let u = frame(0);
    let mut light = 0;
    let mut deep = 0;
    for _ in 0..400 {
        let c = small_gas_planet_shader(&lit(HALF), &u);
        if c == Color::new(127, 91, 96) {
            light += 1;
        } else {
            assert_eq!(c, Color::new(127, 52, 90));
            deep += 1;
        }
    }
    assert!(light > 0 && deep > 0);
}

#[test]
fn black_or_white_turns_at_fifty() {
    assert_eq!(black_or_white(0, ONE), Color::black());
    assert_eq!(black_or_white(49, ONE), Color::black());
    assert_eq!(black_or_white(50, ONE), Color::new(255, 255, 255));
    assert_eq!(black_or_white(100, ONE), Color::new(255, 255, 255));
    assert_eq!(black_or_white(50, HALF), Color::new(127, 127, 127));
    assert_eq!(black_or_white(49, HALF), Color::black());
}

#[test]
fn seed_is_the_whole_part_of_the_product() {
    assert_eq!(seed_for(3, ONE, ONE), 3);
    assert_eq!(seed_for(3, -ONE, ONE), 3);
    assert_eq!(seed_for(3, -ONE, -ONE), 3);
    assert_eq!(seed_for(5, 2 * ONE, 3 * ONE), 30);
    assert_eq!(seed_for(1, HALF, HALF), 0);
    assert_eq!(seed_for(7, HALF, HALF), 1);
    assert_eq!(seed_for(0, ONE, ONE), 0);
    assert_eq!(seed_for(9, 0, ONE), 0);
    assert_eq!(seed_for(u32::MAX, i32::MIN, i32::MIN), 4294967295u64 << 30);
}

#[test]
fn black_and_white_is_a_function_of_time_place_and_intensity() {
    for time in 0..50u32 {
        let u = frame(time);
        let a = Fragment::new(
            1,
            2,
            Color::new(9, 9, 9),
            3,
            Vec3::new(ONE, 0, 0),
            HALF,
            Vec3::new(3 * ONE, 5 * ONE, 7),
        );
        let b = Fragment::new(
            8,
            9,
            Color::new(1, 1, 1),
            -3,
            Vec3::new(0, ONE, 0),
            HALF,
            Vec3::new(3 * ONE, 5 * ONE, -7000),
        );
        let first = black_and_white(&a, &u);
        assert_eq!(black_and_white(&a, &u), first);
        assert_eq!(black_and_white(&b, &frame(time)), first);
        assert_eq!(fragment_shader(&a, &u), first);
        assert!(first == Color::black() || first == Color::new(127, 127, 127));
    }
}

#[test]
fn black_and_white_depends_on_the_seed_only() {
    // 2 * 3 * 1 and 1 * 6 * 1 and 6 * 1 * 1 all give seed 6
    let base = black_and_white(&at(3 * ONE, ONE, ONE), &frame(2));
    assert_eq!(black_and_white(&at(6 * ONE, ONE, ONE), &frame(1)), base);
    assert_eq!(black_and_white(&at(ONE, ONE, ONE), &frame(6)), base);
    assert_eq!(black_and_white(&at(-ONE, ONE, ONE), &frame(6)), base);
}

#[test]
fn black_and_white_draws_both_tones_and_not_by_the_size_of_the_seed() {
    let mut blacks = 0;
    let mut whites = 0;
    let mut white_below_fifty = 0;
    let mut black_from_fifty_on = 0;
    for time in 0..200u32 {
        let c = black_and_white(&at(ONE, ONE, ONE), &frame(time));
        if c == Color::black() {
            blacks += 1;
            if time >= 50 {
                black_from_fifty_on += 1;
            }
        } else {
            assert_eq!(c, Color::new(255, 255, 255));
            whites += 1;
            if time < 50 {
                white_below_fifty += 1;
            }
        }
    }
    assert!(blacks > 0 && whites > 0);
    assert!(white_below_fifty > 0 && black_from_fifty_on > 0);
}

#[test]
fn shade_runs_the_shader_of_the_kind() {
    let u = frame(4);
    let f = at(2 * ONE, 3 * ONE, HALF);
    assert_eq!(Shader::Sun.shade(&f, &u), sun_shader(&f, &u));
    assert_eq!(Shader::RockyPlanet.shade(&f, &u), rocky_planet_shader(&f, &u));
    assert_eq!(Shader::BlackAndWhite.shade(&f, &u), black_and_white(&f, &u));
    let g = Shader::GasGiant.shade(&f, &u);
    assert!(g == gas_giant_color(true, HALF) || g == gas_giant_color(false, HALF));
    let s = Shader::SmallGasPlanet.shade(&f, &u);
    assert!(s == small_gas_planet_color(true, HALF) || s == small_gas_planet_color(false, HALF));
}

#[test]
fn names_are_compared_letter_by_letter() {
    assert!(name_is("sun", "sun"));
    assert!(!name_is("sun", "Sun"));
    assert!(!name_is("sun", "sun "));
    assert!(name_is("", ""));
}
