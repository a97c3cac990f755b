//! The bodies of the scene: where each one is, how large, what its surface
//! is made of and how it circles the sun.

use crate::fixed::fixed_product;
use crate::fixed::times;
use crate::shaders::name_is;
use crate::shaders::Shader;
use crate::vector::Vec3;
use vstd::prelude::*;

verus! {

/// A planet, or the sun: position, radius, orbit radius and speed in Q16.16,
/// and the name of the kind of surface.
pub struct Planet {
    pub position: Vec3,
    pub radius: i32,
    pub planet_type: String,
    pub orbit_radius: i32,
    pub speed: i32,
}

/// The shader of a planet type: `Sun`, `Rocky`, `GasGiant` and `SmallGas`
/// have their own, every other name gets the dither.
pub open spec fn planet_shader(name: Seq<char>) -> Shader {
    if name == "Sun"@ {
        Shader::Sun
    } else if name == "Rocky"@ {
        Shader::RockyPlanet
    } else if name == "GasGiant"@ {
        Shader::GasGiant
    } else if name == "SmallGas"@ {
        Shader::SmallGasPlanet
    } else {
        Shader::BlackAndWhite
    }
}

/// The seven bodies of the scene, the sun first: for each its distance from
/// the sun (which is also where it starts on the x axis), its radius, its
/// type and its speed.
pub open spec fn solar_system_body(i: int) -> (i32, i32, Seq<char>, i32) {
    if i == 0 {
        (0i32, 98304i32, "Sun"@, 0i32)
    } else if i == 1 {
        (163840i32, 26214i32, "Rocky"@, 65536i32)
    } else if i == 2 {
        (229376i32, 39321i32, "Rocky"@, 52428i32)
    } else if i == 3 {
        (327680i32, 32768i32, "Rocky"@, 32768i32)
    } else if i == 4 {
        (524288i32, 78643i32, "GasGiant"@, 19660i32)
    } else if i == 5 {
        (655360i32, 52428i32, "SmallGas"@, 26214i32)
    } else {
        (786432i32, 45875i32, "SmallGas"@, 39321i32)
    }
}

/// Whether `p` is the body number `i` of the scene, at its starting place.
pub open spec fn is_solar_system_body(p: Planet, i: int) -> bool {
    let body = solar_system_body(i);
    &&& p.position == (Vec3 { x: body.0, y: 0, z: 0 })
    &&& p.radius == body.1
    &&& p.planet_type@ == body.2
    &&& p.orbit_radius == body.0
    &&& p.speed == body.3
}

impl Planet {
    /// The planet of the values given.
    pub fn new(position: Vec3, radius: i32, planet_type: &str, orbit_radius: i32, speed: i32) -> (p:
        Planet)
        ensures
            p.position == position,
            p.radius == radius,
            p.planet_type@ == planet_type@,
            p.orbit_radius == orbit_radius,
            p.speed == speed,
    {
        Planet { position, radius, planet_type: planet_type.to_owned(), orbit_radius, speed }
    }

    /// The angle that the planet has come on its orbit when a planet of
    /// speed one has come `angle`: the product of `angle` and the planet's
    /// speed.
    pub fn orbit_angle(&self, angle: i32) -> (turned: i32)
        ensures
            turned == fixed_product(angle, self.speed),
    {
        times(angle, self.speed)
    }

    /// Puts the planet on its orbit, a circle around the sun in the plane of
    /// x and z, at the angle whose cosine and sine are given in Q16.16. The
    /// height y stays. A planet that moves at its own speed is put at the
    /// cosine and sine of what `orbit_angle` gives.
    pub fn orbit(&mut self, cos: i32, sin: i32)
        ensures
            final(self).position == (Vec3 {
                x: fixed_product(old(self).orbit_radius, cos),
                y: old(self).position.y,
                z: fixed_product(old(self).orbit_radius, sin),
            }),
            final(self).radius == old(self).radius,
            final(self).planet_type == old(self).planet_type,
            final(self).orbit_radius == old(self).orbit_radius,
            final(self).speed == old(self).speed,
    {
        self.position.x = times(self.orbit_radius, cos);
        self.position.z = times(self.orbit_radius, sin);
    }

    /// The shader of this planet's type.
    pub fn get_shader(&self) -> (s: Shader)
        ensures
            s == planet_shader(self.planet_type@),
    {
        let name = self.planet_type.as_str();
        if name_is(name, "Sun") {
            Shader::Sun
        } else if name_is(name, "Rocky") {
            Shader::RockyPlanet
        } else if name_is(name, "GasGiant") {
            Shader::GasGiant
        } else if name_is(name, "SmallGas") {
            Shader::SmallGasPlanet
        } else {
            Shader::BlackAndWhite
        }
    }
}

/// The scene: the sun, three rocky planets, a gas giant and two small gas
/// planets, each at its starting place on the x axis.
pub fn create_solar_system() -> (planets: Vec<Planet>)
    ensures
        planets@.len() == 7,
        forall|i: int| 0 <= i < 7 ==> is_solar_system_body(#[trigger] planets@[i], i),
{
    let mut planets: Vec<Planet> = Vec::new();
    planets.push(Planet::new(Vec3::new(0, 0, 0), 98304, "Sun", 0, 0));
    planets.push(Planet::new(Vec3::new(163840, 0, 0), 26214, "Rocky", 163840, 65536));
    planets.push(Planet::new(Vec3::new(229376, 0, 0), 39321, "Rocky", 229376, 52428));
    planets.push(Planet::new(Vec3::new(327680, 0, 0), 32768, "Rocky", 327680, 32768));
    planets.push(Planet::new(Vec3::new(524288, 0, 0), 78643, "GasGiant", 524288, 19660));
    planets.push(Planet::new(Vec3::new(655360, 0, 0), 52428, "SmallGas", 655360, 26214));
    planets.push(Planet::new(Vec3::new(786432, 0, 0), 45875, "SmallGas", 786432, 39321));
    planets
}

} // verus!
