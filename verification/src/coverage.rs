//! The geometry of a triangle on the pixel grid: edge functions, barycentric
//! weights and the test that decides which pixels a triangle covers.
//!
//! A weight is a fraction: a numerator over the triangle's doubled area.
//! Numerators and area are kept as integers, with the area made positive, so
//! that "the weights add up to one" reads "the numerators add up to the
//! area" and holds exactly.

use vstd::arithmetic::div_mod::lemma_div_is_ordered;
use vstd::arithmetic::div_mod::lemma_div_multiples_vanish;
use vstd::prelude::*;

verus! {

/// A point of the screen plane, in raw Q16.16 units.
pub struct Point {
    pub x: int,
    pub y: int,
}

/// The edge function: twice the signed area of the triangle `a`, `b`, `c`.
/// Its sign tells on which side of the line from `a` to `b` the point `c`
/// lies; it is zero where the three are on one line.
pub open spec fn edge(a: Point, b: Point, c: Point) -> int {
    (c.x - a.x) * (b.y - a.y) - (c.y - a.y) * (b.x - a.x)
}

/// A numerator with the sign of the area taken out of it.
pub open spec fn oriented(e: int, area: int) -> int {
    if area < 0 {
        -e
    } else {
        e
    }
}

/// The size of the doubled area: what the three weights of a point are
/// fractions of.
pub open spec fn total(a: Point, b: Point, c: Point) -> int {
    oriented(edge(a, b, c), edge(a, b, c))
}

/// The barycentric weights of `p` in the triangle `a`, `b`, `c`, as
/// numerators over `total(a, b, c)`. The weight of a corner is taken from
/// the edge that lies across from it.
pub struct Weights {
    pub w1: int,
    pub w2: int,
    pub w3: int,
}

/// The weights of `p`, for a triangle whose edge function is `area`.
pub open spec fn weights_for(p: Point, a: Point, b: Point, c: Point, area: int) -> Weights {
    Weights {
        w1: oriented(edge(b, c, p), area),
        w2: oriented(edge(c, a, p), area),
        w3: oriented(edge(a, b, p), area),
    }
}

/// The weights of `p` in the triangle `a`, `b`, `c`.
pub open spec fn weights(p: Point, a: Point, b: Point, c: Point) -> Weights {
    weights_for(p, a, b, c, edge(a, b, c))
}

/// Whether weights over `total` all lie within 0..=1. Nothing lies within a
/// triangle of no area.
pub open spec fn inside(w: Weights, total: int) -> bool {
    &&& total > 0
    &&& 0 <= w.w1 <= total
    &&& 0 <= w.w2 <= total
    &&& 0 <= w.w3 <= total
}

/// Whether the triangle `a`, `b`, `c` covers the point `p`: the triangle has
/// an area, and `p` lies in it or on its border. A point on an edge that two
/// triangles share is covered by both.
pub open spec fn covers(a: Point, b: Point, c: Point, p: Point) -> bool {
    inside(weights(p, a, b, c), total(a, b, c))
}

/// The value at a point of what is `fa`, `fb`, `fc` at the three corners: the
/// weighted mean, rounded down.
pub open spec fn blend(w: Weights, total: int, fa: int, fb: int, fc: int) -> int {
    (fa * w.w1 + fb * w.w2 + fc * w.w3) / total
}

/// The least of three.
pub open spec fn min3(a: int, b: int, c: int) -> int {
    if a <= b && a <= c {
        a
    } else if b <= c {
        b
    } else {
        c
    }
}

/// The greatest of three.
pub open spec fn max3(a: int, b: int, c: int) -> int {
    if a >= b && a >= c {
        a
    } else if b >= c {
        b
    } else {
        c
    }
}

proof fn lemma_expand(x: int, y: int, z: int, w: int)
    by (nonlinear_arith)
    ensures
        (x - y) * (z - w) == x * z - x * w - y * z + y * w,
{
}

proof fn lemma_scale_cross(k: int, ux: int, uy: int, vx: int, vy: int)
    by (nonlinear_arith)
    ensures
        k * (ux * vy - uy * vx) == (k * ux) * vy - (k * uy) * vx,
{
}

proof fn lemma_share(s: int, alpha: int, beta: int, gamma: int, p: int, a: int, b: int, c: int)
    by (nonlinear_arith)
    requires
        s == alpha + beta + gamma,
        s * p == alpha * a + beta * b + gamma * c,
    ensures
        s * (p - b) == alpha * (a - b) + gamma * (c - b),
{
}

proof fn lemma_cross_mix(
    alpha: int,
    gamma: int,
    a1: int,
    a2: int,
    d1: int,
    d2: int,
    x: int,
    y: int,
)
    by (nonlinear_arith)
    requires
        x == alpha * a1 + gamma * d2,
        y == alpha * a2 + gamma * d1,
    ensures
        x * d1 - y * d2 == alpha * (a1 * d1 - a2 * d2),
{
}

proof fn lemma_cramer(ux: int, uy: int, vx: int, vy: int, qx: int, qy: int)
    by (nonlinear_arith)
    ensures
        (vx * uy - vy * ux) * qx == (qy * vx - qx * vy) * ux + (qx * uy - qy * ux) * vx,
        (vx * uy - vy * ux) * qy == (qy * vx - qx * vy) * uy + (qx * uy - qy * ux) * vy,
{
}

/// The edge function keeps its value when the three points change places in
/// a circle.
pub proof fn lemma_edge_cyclic(a: Point, b: Point, c: Point)
    ensures
        edge(b, c, a) == edge(a, b, c),
        edge(c, a, b) == edge(a, b, c),
{
    lemma_expand(a.x, b.x, c.y, b.y);
    lemma_expand(a.y, b.y, c.x, b.x);
    lemma_expand(b.x, c.x, a.y, c.y);
    lemma_expand(b.y, c.y, a.x, c.x);
    lemma_expand(c.x, a.x, b.y, a.y);
    lemma_expand(c.y, a.y, b.x, a.x);
}

/// The three edge functions of a point add up to that of the triangle.
pub proof fn lemma_edges_sum(p: Point, a: Point, b: Point, c: Point)
    ensures
        edge(b, c, p) + edge(c, a, p) + edge(a, b, p) == edge(a, b, c),
{
    lemma_expand(p.x, b.x, c.y, b.y);
    lemma_expand(p.y, b.y, c.x, b.x);
    lemma_expand(p.x, c.x, a.y, c.y);
    lemma_expand(p.y, c.y, a.x, c.x);
    lemma_expand(p.x, a.x, b.y, a.y);
    lemma_expand(p.y, a.y, b.x, a.x);
    lemma_expand(c.x, a.x, b.y, a.y);
    lemma_expand(c.y, a.y, b.x, a.x);
}

/// One corner's part of the mix: the edge function across from `a`.
proof fn lemma_edge_of_mix(
    p: Point,
    a: Point,
    b: Point,
    c: Point,
    alpha: int,
    beta: int,
    gamma: int,
)
    requires
        (alpha + beta + gamma) * p.x == alpha * a.x + beta * b.x + gamma * c.x,
        (alpha + beta + gamma) * p.y == alpha * a.y + beta * b.y + gamma * c.y,
    ensures
        (alpha + beta + gamma) * edge(b, c, p) == alpha * edge(b, c, a),
{
    let s = alpha + beta + gamma;
    let x = s * (p.x - b.x);
    let y = s * (p.y - b.y);
    lemma_share(s, alpha, beta, gamma, p.x, a.x, b.x, c.x);
    lemma_share(s, alpha, beta, gamma, p.y, a.y, b.y, c.y);
    lemma_scale_cross(s, p.x - b.x, p.y - b.y, c.x - b.x, c.y - b.y);
    lemma_cross_mix(alpha, gamma, a.x - b.x, a.y - b.y, c.y - b.y, c.x - b.x, x, y);
}

/// The weights of any point add up to one: the numerators add up to the
/// total, whatever the triangle and wherever the point.
pub proof fn lemma_weights_sum_to_one(p: Point, a: Point, b: Point, c: Point)
    ensures
        weights(p, a, b, c).w1 + weights(p, a, b, c).w2 + weights(p, a, b, c).w3 == total(a, b, c),
        total(a, b, c) >= 0,
{
    lemma_edges_sum(p, a, b, c);
}

/// The edge functions recover the mix: where `s` times `p` is `alpha` times
/// `a` plus `beta` times `b` plus `gamma` times `c`, with `s` the sum of the
/// three, `s` times each edge function of `p` is the corner's share of the
/// triangle's.
pub proof fn lemma_edges_of_mix(
    p: Point,
    a: Point,
    b: Point,
    c: Point,
    alpha: int,
    beta: int,
    gamma: int,
)
    requires
        (alpha + beta + gamma) * p.x == alpha * a.x + beta * b.x + gamma * c.x,
        (alpha + beta + gamma) * p.y == alpha * a.y + beta * b.y + gamma * c.y,
    ensures
        (alpha + beta + gamma) * edge(b, c, p) == alpha * edge(a, b, c),
        (alpha + beta + gamma) * edge(c, a, p) == beta * edge(a, b, c),
        (alpha + beta + gamma) * edge(a, b, p) == gamma * edge(a, b, c),
{
    lemma_edge_of_mix(p, a, b, c, alpha, beta, gamma);
    lemma_edge_of_mix(p, b, c, a, beta, gamma, alpha);
    lemma_edge_of_mix(p, c, a, b, gamma, alpha, beta);
    lemma_edge_cyclic(a, b, c);
}

/// A point strictly inside a triangle has all three weights strictly between
/// zero and one. The point is given as a mix of the corners in positive
/// shares `alpha`, `beta`, `gamma`, which is what lying strictly inside
/// means; the triangle must have an area.
pub proof fn lemma_weights_strictly_inside(
    p: Point,
    a: Point,
    b: Point,
    c: Point,
    alpha: int,
    beta: int,
    gamma: int,
)
    requires
        edge(a, b, c) != 0,
        alpha > 0,
        beta > 0,
        gamma > 0,
        (alpha + beta + gamma) * p.x == alpha * a.x + beta * b.x + gamma * c.x,
        (alpha + beta + gamma) * p.y == alpha * a.y + beta * b.y + gamma * c.y,
    ensures
        0 < weights(p, a, b, c).w1 < total(a, b, c),
        0 < weights(p, a, b, c).w2 < total(a, b, c),
        0 < weights(p, a, b, c).w3 < total(a, b, c),
{
    let s = alpha + beta + gamma;
    let t = total(a, b, c);
    let w = weights(p, a, b, c);
    lemma_edges_of_mix(p, a, b, c, alpha, beta, gamma);
    lemma_weights_sum_to_one(p, a, b, c);
    assert(s * w.w1 == alpha * t && s * w.w2 == beta * t && s * w.w3 == gamma * t)
        by (nonlinear_arith)
        requires
            s * edge(b, c, p) == alpha * edge(a, b, c),
            s * edge(c, a, p) == beta * edge(a, b, c),
            s * edge(a, b, p) == gamma * edge(a, b, c),
            w.w1 == oriented(edge(b, c, p), edge(a, b, c)),
            w.w2 == oriented(edge(c, a, p), edge(a, b, c)),
            w.w3 == oriented(edge(a, b, p), edge(a, b, c)),
            t == oriented(edge(a, b, c), edge(a, b, c)),
    ;
    lemma_positive_share(s, w.w1, alpha, t);
    lemma_positive_share(s, w.w2, beta, t);
    lemma_positive_share(s, w.w3, gamma, t);
}

proof fn lemma_positive_share(s: int, w: int, share: int, t: int)
    by (nonlinear_arith)
    requires
        s * w == share * t,
        s > 0,
        share > 0,
        t > 0,
    ensures
        w > 0,
{
}

/// At a corner the weights are one for that corner and zero for the other
/// two.
pub proof fn lemma_weights_at_corners(a: Point, b: Point, c: Point)
    ensures
        weights(a, a, b, c) == (Weights { w1: total(a, b, c), w2: 0, w3: 0 }),
        weights(b, a, b, c) == (Weights { w1: 0, w2: total(a, b, c), w3: 0 }),
        weights(c, a, b, c) == (Weights { w1: 0, w2: 0, w3: total(a, b, c) }),
{
    lemma_edge_cyclic(a, b, c);
    assert(edge(c, a, a) == 0 && edge(a, b, a) == 0) by {
        lemma_expand(a.x, c.x, a.y, c.y);
        lemma_expand(a.y, c.y, a.x, c.x);
        lemma_expand(a.x, a.x, b.y, a.y);
        lemma_expand(a.y, a.y, b.x, a.x);
    }
    assert(edge(b, c, b) == 0 && edge(a, b, b) == 0) by {
        lemma_expand(b.x, b.x, c.y, b.y);
        lemma_expand(b.y, b.y, c.x, b.x);
        lemma_expand(b.x, a.x, b.y, a.y);
        lemma_expand(b.y, a.y, b.x, a.x);
    }
    assert(edge(b, c, c) == 0 && edge(c, a, c) == 0) by {
        lemma_expand(c.x, b.x, c.y, b.y);
        lemma_expand(c.y, b.y, c.x, b.x);
        lemma_expand(c.x, c.x, a.y, c.y);
        lemma_expand(c.y, c.y, a.x, c.x);
    }
}

/// The weights give the point back: the weighted mean of the corners is the
/// point itself.
pub proof fn lemma_weights_give_point(p: Point, a: Point, b: Point, c: Point)
    ensures
        total(a, b, c) * p.x == weights(p, a, b, c).w1 * a.x + weights(p, a, b, c).w2 * b.x
            + weights(p, a, b, c).w3 * c.x,
        total(a, b, c) * p.y == weights(p, a, b, c).w1 * a.y + weights(p, a, b, c).w2 * b.y
            + weights(p, a, b, c).w3 * c.y,
{
    let e1 = edge(b, c, p);
    let e2 = edge(c, a, p);
    let e3 = edge(a, b, p);
    let area = edge(a, b, c);
    let (ux, uy) = (b.x - a.x, b.y - a.y);
    let (vx, vy) = (c.x - a.x, c.y - a.y);
    let (qx, qy) = (p.x - a.x, p.y - a.y);
    lemma_edges_sum(p, a, b, c);
    lemma_cramer(ux, uy, vx, vy, qx, qy);
    // With `a` for the origin, the edge functions are cross products.
    lemma_expand(p.x, c.x, a.y, c.y);
    lemma_expand(p.y, c.y, a.x, c.x);
    lemma_expand(p.y, a.y, c.x, a.x);
    lemma_expand(p.x, a.x, c.y, a.y);
    assert(e2 == qy * vx - qx * vy);
    assert(e3 == qx * uy - qy * ux);
    assert(area == vx * uy - vy * ux);
    lemma_rebase(area, e1, e2, e3, p.x, a.x, b.x, c.x);
    lemma_rebase(area, e1, e2, e3, p.y, a.y, b.y, c.y);
    if area < 0 {
        lemma_negate(area, e1, e2, e3, p.x, a.x, b.x, c.x);
        lemma_negate(area, e1, e2, e3, p.y, a.y, b.y, c.y);
    }
}

proof fn lemma_rebase(area: int, e1: int, e2: int, e3: int, p: int, a: int, b: int, c: int)
    by (nonlinear_arith)
    requires
        e1 + e2 + e3 == area,
        area * (p - a) == e2 * (b - a) + e3 * (c - a),
    ensures
        area * p == e1 * a + e2 * b + e3 * c,
{
}

proof fn lemma_negate(area: int, e1: int, e2: int, e3: int, p: int, a: int, b: int, c: int)
    by (nonlinear_arith)
    requires
        area * p == e1 * a + e2 * b + e3 * c,
    ensures
        (-area) * p == (-e1) * a + (-e2) * b + (-e3) * c,
{
}

/// A weighted mean lies between the least and the greatest of what it
/// averages.
pub proof fn lemma_blend_range(w: Weights, total: int, fa: int, fb: int, fc: int)
    requires
        total > 0,
        w.w1 >= 0,
        w.w2 >= 0,
        w.w3 >= 0,
        w.w1 + w.w2 + w.w3 == total,
    ensures
        min3(fa, fb, fc) * total <= fa * w.w1 + fb * w.w2 + fc * w.w3 <= max3(fa, fb, fc) * total,
        min3(fa, fb, fc) <= blend(w, total, fa, fb, fc) <= max3(fa, fb, fc),
{
    let lo = min3(fa, fb, fc);
    let hi = max3(fa, fb, fc);
    let n = fa * w.w1 + fb * w.w2 + fc * w.w3;
    assert(lo * w.w1 <= fa * w.w1 <= hi * w.w1) by (nonlinear_arith)
        requires
            lo <= fa <= hi,
            w.w1 >= 0,
    ;
    assert(lo * w.w2 <= fb * w.w2 <= hi * w.w2) by (nonlinear_arith)
        requires
            lo <= fb <= hi,
            w.w2 >= 0,
    ;
    assert(lo * w.w3 <= fc * w.w3 <= hi * w.w3) by (nonlinear_arith)
        requires
            lo <= fc <= hi,
            w.w3 >= 0,
    ;
    assert(lo * total == lo * w.w1 + lo * w.w2 + lo * w.w3) by (nonlinear_arith)
        requires
            w.w1 + w.w2 + w.w3 == total,
    ;
    assert(hi * total == hi * w.w1 + hi * w.w2 + hi * w.w3) by (nonlinear_arith)
        requires
            w.w1 + w.w2 + w.w3 == total,
    ;
    lemma_div_is_ordered(lo * total, n, total);
    lemma_div_is_ordered(n, hi * total, total);
    lemma_div_multiples_vanish(lo, total);
    lemma_div_multiples_vanish(hi, total);
    assert(lo * total == total * lo) by (nonlinear_arith);
    assert(hi * total == total * hi) by (nonlinear_arith);
}

/// A point that a triangle covers lies within the box that the corners span.
pub proof fn lemma_covered_point_in_box(a: Point, b: Point, c: Point, p: Point)
    requires
        covers(a, b, c, p),
    ensures
        min3(a.x, b.x, c.x) <= p.x <= max3(a.x, b.x, c.x),
        min3(a.y, b.y, c.y) <= p.y <= max3(a.y, b.y, c.y),
{
    let w = weights(p, a, b, c);
    let t = total(a, b, c);
    lemma_weights_sum_to_one(p, a, b, c);
    lemma_weights_give_point(p, a, b, c);
    lemma_blend_range(w, t, a.x, b.x, c.x);
    lemma_blend_range(w, t, a.y, b.y, c.y);
    assert(a.x * w.w1 == w.w1 * a.x && b.x * w.w2 == w.w2 * b.x && c.x * w.w3 == w.w3 * c.x)
        by (nonlinear_arith);
    assert(a.y * w.w1 == w.w1 * a.y && b.y * w.w2 == w.w2 * b.y && c.y * w.w3 == w.w3 * c.y)
        by (nonlinear_arith);
    lemma_cancel(min3(a.x, b.x, c.x), p.x, t);
    lemma_cancel(p.x, max3(a.x, b.x, c.x), t);
    lemma_cancel(min3(a.y, b.y, c.y), p.y, t);
    lemma_cancel(p.y, max3(a.y, b.y, c.y), t);
}

proof fn lemma_cancel(u: int, v: int, t: int)
    by (nonlinear_arith)
    requires
        t > 0,
        u * t <= t * v || u * t <= v * t || t * u <= t * v || t * u <= v * t,
    ensures
        u <= v,
{
}

} // verus!
