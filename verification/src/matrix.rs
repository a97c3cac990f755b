//! Four-by-four transforms of Q16.16 entries, and the two things that the
//! vertex stage does with them: carrying a point from object space to the
//! screen, and carrying a normal along with the model.

use crate::fixed::div_floor;
use crate::fixed::ONE;
use crate::vector::Vec3;
use vstd::prelude::*;

verus! {

/// A row of a transform, or a point in homogeneous coordinates.
#[derive(Clone, Copy, Debug, PartialEq, Eq, Structural)]
pub struct Vec4 {
    pub x: i32,
    pub y: i32,
    pub z: i32,
    pub w: i32,
}

/// A transform, row by row.
#[derive(Clone, Copy, Debug, PartialEq, Eq, Structural)]
pub struct Mat4 {
    pub r0: Vec4,
    pub r1: Vec4,
    pub r2: Vec4,
    pub r3: Vec4,
}

/// A point in homogeneous coordinates with room to grow: what a chain of
/// transforms works on between its rounded ends.
pub struct Point4 {
    pub x: int,
    pub y: int,
    pub z: int,
    pub w: int,
}

/// A number held to the range of `i32`.
pub open spec fn clamp32(v: int) -> i32 {
    if v < -0x8000_0000 {
        -0x8000_0000i32
    } else if v > 0x7fff_ffff {
        0x7fff_ffffi32
    } else {
        v as i32
    }
}

/// The quotient of `n` by `d`, rounded toward negative infinity, for a
/// divisor of either sign.
pub open spec fn quotient(n: int, d: int) -> int {
    if d > 0 {
        n / d
    } else {
        (-n) / (-d)
    }
}

/// One row of a transform applied to a point: their scalar product in
/// Q16.16, rounded down.
pub open spec fn row_dot(r: Vec4, v: Point4) -> int {
    (r.x * v.x + r.y * v.y + r.z * v.z + r.w * v.w) / (ONE as int)
}

/// A transform applied to a point.
pub open spec fn apply(m: Mat4, v: Point4) -> Point4 {
    Point4 { x: row_dot(m.r0, v), y: row_dot(m.r1, v), z: row_dot(m.r2, v), w: row_dot(m.r3, v) }
}

/// A position as a homogeneous point: its three coordinates and a one.
pub open spec fn homogeneous(p: Vec3) -> Point4 {
    Point4 { x: p.x as int, y: p.y as int, z: p.z as int, w: ONE as int }
}

/// Whether every coordinate of `v` lies within `limit` of zero.
pub open spec fn within(v: Point4, limit: int) -> bool {
    &&& -limit <= v.x <= limit
    &&& -limit <= v.y <= limit
    &&& -limit <= v.z <= limit
    &&& -limit <= v.w <= limit
}

/// A coordinate of a point in clip space after the perspective divide by
/// `w`, held to the range of `i32`. Nothing can be divided by a `w` of zero:
/// there the end of the range on the side of `c` stands for the quotient,
/// and zero for zero over zero.
pub open spec fn divided(c: int, w: int) -> int {
    if w != 0 {
        clamp32(quotient(c * ONE, w)) as int
    } else if c > 0 {
        0x7fff_ffff
    } else if c < 0 {
        -0x8000_0000
    } else {
        0
    }
}

/// The cofactors of the upper left three-by-three block of a transform, row
/// by row, in squared raw units. Over the determinant they are the inverse
/// of the block's transpose.
pub open spec fn cofactors(m: Mat4) -> ((int, int, int), (int, int, int), (int, int, int)) {
    (
        (
            m.r1.y * m.r2.z - m.r1.z * m.r2.y,
            m.r1.z * m.r2.x - m.r1.x * m.r2.z,
            m.r1.x * m.r2.y - m.r1.y * m.r2.x,
        ),
        (
            m.r0.z * m.r2.y - m.r0.y * m.r2.z,
            m.r0.x * m.r2.z - m.r0.z * m.r2.x,
            m.r0.y * m.r2.x - m.r0.x * m.r2.y,
        ),
        (
            m.r0.y * m.r1.z - m.r0.z * m.r1.y,
            m.r0.z * m.r1.x - m.r0.x * m.r1.z,
            m.r0.x * m.r1.y - m.r0.y * m.r1.x,
        ),
    )
}

/// A row of three times a column of three.
pub open spec fn row_sum(row: (int, int, int), x: int, y: int, z: int) -> int {
    row.0 * x + row.1 * y + row.2 * z
}

/// The determinant of the upper left three-by-three block of a transform, in
/// cubed raw units: the first row times its cofactors.
pub open spec fn determinant(m: Mat4) -> int {
    row_sum(cofactors(m).0, m.r0.x as int, m.r0.y as int, m.r0.z as int)
}

/// One coordinate of a carried normal: the row of cofactors times the normal,
/// over the determinant, in Q16.16, rounded down and held to the range of
/// `i32`.
pub open spec fn carried(row: (int, int, int), n: Vec3, det: int) -> i32 {
    clamp32(quotient(row_sum(row, n.x as int, n.y as int, n.z as int) * ONE, det))
}

/// A normal carried along with a model transform: multiplied by the inverse
/// of the transpose of the transform's upper left block, so that stretching
/// the model along one axis does not tilt the normal the wrong way. Where
/// the block cannot be inverted the normal stays as it is.
pub open spec fn carried_normal(m: Mat4, n: Vec3) -> Vec3 {
    let det = determinant(m);
    let c = cofactors(m);
    if det == 0 {
        n
    } else {
        Vec3 { x: carried(c.0, n, det), y: carried(c.1, n, det), z: carried(c.2, n, det) }
    }
}

/// A point with 128-bit coordinates: the executable `Point4`.
#[derive(Clone, Copy, Debug)]
pub struct Wide4 {
    pub x: i128,
    pub y: i128,
    pub z: i128,
    pub w: i128,
}

impl View for Wide4 {
    type V = Point4;

    open spec fn view(&self) -> Point4 {
        Point4 { x: self.x as int, y: self.y as int, z: self.z as int, w: self.w as int }
    }
}

impl Vec4 {
    /// The row of the four entries given.
    pub fn new(x: i32, y: i32, z: i32, w: i32) -> (v: Vec4)
        ensures
            v == (Vec4 { x, y, z, w }),
    {
        Vec4 { x, y, z, w }
    }
}

impl Mat4 {
    /// The transform of the four rows given.
    pub fn new(r0: Vec4, r1: Vec4, r2: Vec4, r3: Vec4) -> (m: Mat4)
        ensures
            m == (Mat4 { r0, r1, r2, r3 }),
    {
        Mat4 { r0, r1, r2, r3 }
    }

    /// The transform that changes nothing.
    pub fn identity() -> (m: Mat4)
        ensures
            m == (Mat4 {
                r0: Vec4 { x: ONE, y: 0, z: 0, w: 0 },
                r1: Vec4 { x: 0, y: ONE, z: 0, w: 0 },
                r2: Vec4 { x: 0, y: 0, z: ONE, w: 0 },
                r3: Vec4 { x: 0, y: 0, z: 0, w: ONE },
            }),
    {
        Mat4 {
            r0: Vec4 { x: 65536, y: 0, z: 0, w: 0 },
            r1: Vec4 { x: 0, y: 65536, z: 0, w: 0 },
            r2: Vec4 { x: 0, y: 0, z: 65536, w: 0 },
            r3: Vec4 { x: 0, y: 0, z: 0, w: 65536 },
        }
    }

    /// This transform applied to `v`.
    pub fn transform(&self, v: &Wide4) -> (out: Wide4)
        requires
            within(v@, 0x4_0000_0000_0000_0000_0000),
        ensures
            out@ == apply(*self, v@),
            forall|limit: int|
                0 <= limit && within(v@, limit) ==> within(out@, #[trigger] (limit * 0x2_0000)),
    {
        let out = Wide4 {
            x: row_times(&self.r0, v),
            y: row_times(&self.r1, v),
            z: row_times(&self.r2, v),
            w: row_times(&self.r3, v),
        };
        out
    }

    /// `normal` carried along with this transform.
    pub fn transform_normal(&self, normal: &Vec3) -> (out: Vec3)
        ensures
            out == carried_normal(*self, *normal),
    {
        let c00 = minor(self.r1.y, self.r2.z, self.r1.z, self.r2.y);
        let c01 = minor(self.r1.z, self.r2.x, self.r1.x, self.r2.z);
        let c02 = minor(self.r1.x, self.r2.y, self.r1.y, self.r2.x);
        let c10 = minor(self.r0.z, self.r2.y, self.r0.y, self.r2.z);
        let c11 = minor(self.r0.x, self.r2.z, self.r0.z, self.r2.x);
        let c12 = minor(self.r0.y, self.r2.x, self.r0.x, self.r2.y);
        let c20 = minor(self.r0.y, self.r1.z, self.r0.z, self.r1.y);
        let c21 = minor(self.r0.z, self.r1.x, self.r0.x, self.r1.z);
        let c22 = minor(self.r0.x, self.r1.y, self.r0.y, self.r1.x);
        let det = row3(c00, c01, c02, self.r0.x, self.r0.y, self.r0.z);
        if det == 0 {
            *normal
        } else {
            Vec3 {
                x: carry(row3(c00, c01, c02, normal.x, normal.y, normal.z), det),
                y: carry(row3(c10, c11, c12, normal.x, normal.y, normal.z), det),
                z: carry(row3(c20, c21, c22, normal.x, normal.y, normal.z), det),
            }
        }
    }
}

/// A product stays within the product of the bounds.
pub proof fn lemma_product_bound(a: int, b: int, k: int, l: int)
    by (nonlinear_arith)
    requires
        -k <= a <= k,
        -l <= b <= l,
    ensures
        -(k * l) <= a * b <= k * l,
{
}

/// A number held to the range of `i32`.
pub fn clamp_to_i32(v: i128) -> (c: i32)
    ensures
        c == clamp32(v as int),
{
    if v < -0x8000_0000 {
        -0x8000_0000
    } else if v > 0x7fff_ffff {
        0x7fff_ffff
    } else {
        v as i32
    }
}

/// The quotient of `n` by a divisor of either sign, rounded toward negative
/// infinity.
pub fn floor_quotient(n: i128, d: i128) -> (q: i128)
    requires
        d != 0,
        -0x100_0000_0000_0000_0000_0000_0000_0000 <= n <= 0x100_0000_0000_0000_0000_0000_0000_0000,
        -0x100_0000_0000_0000_0000_0000_0000_0000 <= d,
    ensures
        q == quotient(n as int, d as int),
{
    if d > 0 {
        div_floor(n, d)
    } else {
        div_floor(-n, -d)
    }
}

/// The coordinate `c` of a point in clip space after the perspective divide
/// by `w`.
pub fn perspective_divide(c: i128, w: i128) -> (q: i32)
    requires
        -0x1_0000_0000_0000_0000_0000_0000 <= c <= 0x1_0000_0000_0000_0000_0000_0000,
        -0x1_0000_0000_0000_0000_0000_0000 <= w <= 0x1_0000_0000_0000_0000_0000_0000,
    ensures
        q == divided(c as int, w as int),
{
    if w != 0 {
        clamp_to_i32(floor_quotient(c * 65536, w))
    } else if c > 0 {
        0x7fff_ffff
    } else if c < 0 {
        -0x8000_0000
    } else {
        0
    }
}

fn row_times(r: &Vec4, v: &Wide4) -> (d: i128)
    requires
        within(v@, 0x4_0000_0000_0000_0000_0000),
    ensures
        d == row_dot(*r, v@),
        forall|limit: int|
            0 <= limit && within(v@, limit) ==> -(#[trigger] (limit * 0x2_0000)) <= d <= limit
                * 0x2_0000,
{
    proof {
        lemma_product_bound(r.x as int, v.x as int, 0x8000_0000, 0x4_0000_0000_0000_0000_0000);
        lemma_product_bound(r.y as int, v.y as int, 0x8000_0000, 0x4_0000_0000_0000_0000_0000);
        lemma_product_bound(r.z as int, v.z as int, 0x8000_0000, 0x4_0000_0000_0000_0000_0000);
        lemma_product_bound(r.w as int, v.w as int, 0x8000_0000, 0x4_0000_0000_0000_0000_0000);
    }
    let n: i128 = (r.x as i128) * v.x + (r.y as i128) * v.y + (r.z as i128) * v.z + (r.w as i128)
        * v.w;
    let d = div_floor(n, 65536);
    proof {
        assert forall|limit: int| 0 <= limit && within(v@, limit) implies -(#[trigger] (limit
            * 0x2_0000)) <= d <= limit * 0x2_0000 by {
            lemma_product_bound(r.x as int, v.x as int, 0x8000_0000, limit);
            lemma_product_bound(r.y as int, v.y as int, 0x8000_0000, limit);
            lemma_product_bound(r.z as int, v.z as int, 0x8000_0000, limit);
            lemma_product_bound(r.w as int, v.w as int, 0x8000_0000, limit);
        }
    }
    d
}

/// The two-by-two determinant `a * b - c * d`.
fn minor(a: i32, b: i32, c: i32, d: i32) -> (m: i128)
    ensures
        m == a * b - c * d,
        -0x8000_0000_0000_0000 <= m <= 0x8000_0000_0000_0000,
{
    proof {
        lemma_product_bound(a as int, b as int, 0x8000_0000, 0x8000_0000);
        lemma_product_bound(c as int, d as int, 0x8000_0000, 0x8000_0000);
    }
    (a as i128) * (b as i128) - (c as i128) * (d as i128)
}

/// Three cofactors times three entries.
fn row3(c0: i128, c1: i128, c2: i128, x: i32, y: i32, z: i32) -> (s: i128)
    requires
        -0x8000_0000_0000_0000 <= c0 <= 0x8000_0000_0000_0000,
        -0x8000_0000_0000_0000 <= c1 <= 0x8000_0000_0000_0000,
        -0x8000_0000_0000_0000 <= c2 <= 0x8000_0000_0000_0000,
    ensures
        s == row_sum((c0 as int, c1 as int, c2 as int), x as int, y as int, z as int),
        -0x1_0000_0000_0000_0000_0000_0000 <= s <= 0x1_0000_0000_0000_0000_0000_0000,
{
    proof {
        lemma_product_bound(c0 as int, x as int, 0x8000_0000_0000_0000, 0x8000_0000);
        lemma_product_bound(c1 as int, y as int, 0x8000_0000_0000_0000, 0x8000_0000);
        lemma_product_bound(c2 as int, z as int, 0x8000_0000_0000_0000, 0x8000_0000);
    }
    c0 * (x as i128) + c1 * (y as i128) + c2 * (z as i128)
}

/// A sum of cofactors times a normal, over the determinant.
fn carry(s: i128, det: i128) -> (c: i32)
    requires
        det != 0,
        -0x1_0000_0000_0000_0000_0000_0000 <= s <= 0x1_0000_0000_0000_0000_0000_0000,
        -0x1_0000_0000_0000_0000_0000_0000 <= det <= 0x1_0000_0000_0000_0000_0000_0000,
    ensures
        c == clamp32(quotient(s * ONE, det as int)),
{
    clamp_to_i32(floor_quotient(s * 65536, det))
}

} // verus!
