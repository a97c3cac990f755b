//! Vectors of Q16.16 components.

use crate::fixed::div_floor;
use crate::fixed::isqrt;
use crate::fixed::sqrt_floor;
use crate::fixed::ONE;
use vstd::arithmetic::div_mod::lemma_div_is_ordered;
use vstd::arithmetic::div_mod::lemma_div_multiples_vanish;
use vstd::prelude::*;

verus! {

/// A pair of Q16.16 components.
#[derive(Clone, Copy, Debug, PartialEq, Eq, Structural)]
pub struct Vec2 {
    pub x: i32,
    pub y: i32,
}

/// A triple of Q16.16 components: a position or a direction.
#[derive(Clone, Copy, Debug, PartialEq, Eq, Structural)]
pub struct Vec3 {
    pub x: i32,
    pub y: i32,
    pub z: i32,
}

/// The scalar product of two vectors, in Q16.16, rounded down.
pub open spec fn dot_product(a: Vec3, b: Vec3) -> int {
    (a.x * b.x + a.y * b.y + a.z * b.z) / (ONE as int)
}

/// The squared length of a vector, in squared raw units.
pub open spec fn norm_squared(v: Vec3) -> nat {
    (v.x * v.x + v.y * v.y + v.z * v.z) as nat
}

/// The magnitude of `c` over the square root of `len2`, in Q16.16, rounded
/// down: the greatest `k` with `k * k * len2 <= ONE * ONE * c * c`.
pub open spec fn unit_magnitude(c: int, len2: nat) -> nat {
    sqrt_floor((c * c * 0x1_0000_0000 / (len2 as int)) as nat)
}

/// The component `c` of a vector of squared length `len2`, after the vector
/// was scaled to length one. The zero vector has no direction and keeps its
/// zero components.
pub open spec fn unit_component(c: int, len2: nat) -> int {
    if len2 == 0 {
        0
    } else if c >= 0 {
        unit_magnitude(c, len2) as int
    } else {
        -(unit_magnitude(c, len2) as int)
    }
}

/// The vector of length one in the direction of `v`.
pub open spec fn normalized(v: Vec3) -> Vec3 {
    Vec3 {
        x: unit_component(v.x as int, norm_squared(v)) as i32,
        y: unit_component(v.y as int, norm_squared(v)) as i32,
        z: unit_component(v.z as int, norm_squared(v)) as i32,
    }
}

/// A component of a unit vector lies within -1..=1.
pub proof fn lemma_unit_component_range(c: int, len2: nat)
    requires
        c * c <= len2,
    ensures
        -ONE <= unit_component(c, len2) <= ONE,
{
    if len2 > 0 {
        let q = c * c * 0x1_0000_0000 / (len2 as int);
        let r = unit_magnitude(c, len2);
        lemma_unit_quotient(c, len2);
        crate::fixed::lemma_sqrt_floor_exists(q as nat);
        if r > 65536 {
            assert(r * r >= 65537 * 65537) by (nonlinear_arith)
                requires
                    r >= 65537,
            ;
        }
    }
}

/// A vector scaled to length one is never longer than one, and what rounding
/// takes away from it is small: the squares of its components add up to at
/// most the square of one, and for a vector that is not zero to no less
/// than that square less 393218, which is less than one part in ten
/// thousand.
pub proof fn lemma_normalized_length(v: Vec3)
    ensures
        norm_squared(normalized(v)) <= ONE * ONE,
        norm_squared(v) > 0 ==> norm_squared(normalized(v)) >= ONE * ONE - 393218,
{
    let len2 = norm_squared(v);
    let n = normalized(v);
    assert(v.x * v.x >= 0 && v.y * v.y >= 0 && v.z * v.z >= 0) by (nonlinear_arith);
    assert(n.x * n.x >= 0 && n.y * n.y >= 0 && n.z * n.z >= 0) by (nonlinear_arith);
    assert(ONE * ONE == 0x1_0000_0000) by (nonlinear_arith);
    if len2 > 0 {
        lemma_unit_square(v.x as int, len2);
        lemma_unit_square(v.y as int, len2);
        lemma_unit_square(v.z as int, len2);
        lemma_unit_component_range(v.x as int, len2);
        lemma_unit_component_range(v.y as int, len2);
        lemma_unit_component_range(v.z as int, len2);
        let d = len2 as int;
        let (a, b, c) = (n.x * n.x, n.y * n.y, n.z * n.z);
        let (p, q, r) = (v.x * v.x, v.y * v.y, v.z * v.z);
        assert(a + b + c <= 0x1_0000_0000) by (nonlinear_arith)
            requires
                d > 0,
                a * d <= p * 0x1_0000_0000,
                b * d <= q * 0x1_0000_0000,
                c * d <= r * 0x1_0000_0000,
                p + q + r == d,
        ;
        assert(a + b + c + 393219 > 0x1_0000_0000) by (nonlinear_arith)
            requires
                d > 0,
                (a + 131073) * d > p * 0x1_0000_0000,
                (b + 131073) * d > q * 0x1_0000_0000,
                (c + 131073) * d > r * 0x1_0000_0000,
                p + q + r == d,
        ;
    } else {
        assert(n.x * n.x == 0 && n.y * n.y == 0 && n.z * n.z == 0) by (nonlinear_arith)
            requires
                n.x == 0,
                n.y == 0,
                n.z == 0,
        ;
    }
}

/// The square of a unit component, times the squared length, is at most the
/// square of the component it came from, in Q16.16, and falls short of it by
/// less than 131073 times the squared length.
proof fn lemma_unit_square(c: int, len2: nat)
    requires
        c * c <= len2,
        len2 > 0,
    ensures
        unit_component(c, len2) * unit_component(c, len2) * len2 <= c * c * 0x1_0000_0000,
        (unit_component(c, len2) * unit_component(c, len2) + 131073) * len2 > c * c
            * 0x1_0000_0000,
{
    let d = len2 as int;
    let q = c * c * 0x1_0000_0000 / d;
    let k = unit_magnitude(c, len2) as int;
    let u = unit_component(c, len2);
    lemma_unit_quotient(c, len2);
    lemma_unit_component_range(c, len2);
    crate::fixed::lemma_sqrt_floor_exists(q as nat);
    assert(u * u == k * k) by (nonlinear_arith)
        requires
            u == k || u == -k,
    ;
    vstd::arithmetic::div_mod::lemma_fundamental_div_mod(c * c * 0x1_0000_0000, d);
    vstd::arithmetic::div_mod::lemma_mod_bound(c * c * 0x1_0000_0000, d);
    assert(k * k * d <= q * d) by (nonlinear_arith)
        requires
            k * k <= q,
            d > 0,
    ;
    assert(q * d == d * q) by (nonlinear_arith);
    assert(k * k + 131072 >= q) by (nonlinear_arith)
        requires
            q < (k + 1) * (k + 1),
            0 <= k <= 65536,
    ;
    assert((k * k + 131073) * d >= (q + 1) * d) by (nonlinear_arith)
        requires
            k * k + 131072 >= q,
            d > 0,
    ;
    assert((q + 1) * d == q * d + d) by (nonlinear_arith);
}

proof fn lemma_unit_quotient(c: int, len2: nat)
    requires
        c * c <= len2,
        len2 > 0,
    ensures
        0 <= c * c * 0x1_0000_0000 / (len2 as int) <= 0x1_0000_0000,
{
    let d = len2 as int;
    assert(0 <= c * c) by (nonlinear_arith);
    assert(0 <= c * c * 0x1_0000_0000 <= d * 0x1_0000_0000) by (nonlinear_arith)
        requires
            0 <= c * c <= d,
    ;
    lemma_div_is_ordered(0, c * c * 0x1_0000_0000, d);
    lemma_div_is_ordered(c * c * 0x1_0000_0000, d * 0x1_0000_0000, d);
    lemma_div_multiples_vanish(0x1_0000_0000, d);
    assert(d * 0x1_0000_0000 == 0x1_0000_0000 * d);
    assert(0int / d == 0) by (nonlinear_arith)
        requires
            d > 0,
    ;
}

impl Vec2 {
    /// The pair of the two components given.
    pub fn new(x: i32, y: i32) -> (v: Vec2)
        ensures
            v == (Vec2 { x, y }),
    {
        Vec2 { x, y }
    }
}

impl Vec3 {
    /// The triple of the three components given.
    pub fn new(x: i32, y: i32, z: i32) -> (v: Vec3)
        ensures
            v == (Vec3 { x, y, z }),
    {
        Vec3 { x, y, z }
    }

    /// The scalar product with `other`.
    pub fn dot(&self, other: &Vec3) -> (d: i64)
        ensures
            d == dot_product(*self, *other),
    {
        let xx: i128 = product(self.x, other.x);
        let yy: i128 = product(self.y, other.y);
        let zz: i128 = product(self.z, other.z);
        let q: i128 = div_floor(xx + yy + zz, 65536);
        q as i64
    }

    /// The vector scaled to length one; the zero vector stays as it is.
    pub fn normalize(&self) -> (n: Vec3)
        ensures
            n == normalized(*self),
    {
        let xx: i128 = product(self.x, self.x);
        let yy: i128 = product(self.y, self.y);
        let zz: i128 = product(self.z, self.z);
        let len2: u128 = (xx + yy + zz) as u128;
        assert(len2 == norm_squared(*self));
        Vec3 {
            x: unit(self.x, xx as u128, len2),
            y: unit(self.y, yy as u128, len2),
            z: unit(self.z, zz as u128, len2),
        }
    }
}

/// The product of two components, in full.
fn product(a: i32, b: i32) -> (p: i128)
    ensures
        p == a * b,
        -0x4000_0000_0000_0000 <= p <= 0x4000_0000_0000_0000,
        a == b ==> p >= 0,
{
    assert(-0x4000_0000_0000_0000 <= a * b <= 0x4000_0000_0000_0000) by (nonlinear_arith)
        requires
            -0x8000_0000 <= a <= 0x8000_0000,
            -0x8000_0000 <= b <= 0x8000_0000,
    ;
    assert(a == b ==> a * b >= 0) by (nonlinear_arith);
    (a as i128) * (b as i128)
}

fn unit(c: i32, square: u128, len2: u128) -> (u: i32)
    requires
        square == c * c,
        square <= len2 <= 0x1_0000_0000_0000_0000,
    ensures
        u == unit_component(c as int, len2 as nat),
{
    if len2 == 0 {
        0
    } else {
        proof {
            lemma_unit_quotient(c as int, len2 as nat);
            lemma_unit_component_range(c as int, len2 as nat);
            assert(c * c * 0x1_0000_0000 == square * 0x1_0000_0000) by (nonlinear_arith)
                requires
                    square == c * c,
            ;
        }
        let q: u128 = square * 0x1_0000_0000 / len2;
        let r: u64 = isqrt(q);
        if c >= 0 {
            r as i32
        } else {
            -(r as i32)
        }
    }
}

} // verus!
