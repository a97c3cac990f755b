//! The pixels of a straight line: one step at a time along the longer axis,
//! with the other coordinate rounded to the nearest pixel.

use vstd::arithmetic::div_mod::lemma_fundamental_div_mod;
use vstd::arithmetic::div_mod::lemma_fundamental_div_mod_converse;
use vstd::arithmetic::div_mod::lemma_mod_bound;
use vstd::prelude::*;

verus! {

/// The distance between two coordinates.
pub open spec fn abs_diff(a: int, b: int) -> int {
    if a < b {
        b - a
    } else {
        a - b
    }
}

/// The coordinate `o` pixels away from `a` on the side of `b`.
pub open spec fn toward(a: int, b: int, o: int) -> int {
    if a < b {
        a + o
    } else {
        a - o
    }
}

/// The quotient of `n` by a positive `d` to the nearest integer; a half goes
/// up. Zero where there is nothing to divide by.
pub open spec fn round_div(n: int, d: int) -> int {
    if d > 0 {
        (2 * n + d) / (2 * d)
    } else {
        0
    }
}

/// The number of pixels that a line from `(x0, y0)` to `(x1, y1)` draws: one
/// per step along the longer axis. The far end is not drawn.
pub open spec fn line_len(x0: int, y0: int, x1: int, y1: int) -> nat {
    if abs_diff(x0, x1) >= abs_diff(y0, y1) {
        abs_diff(x0, x1) as nat
    } else {
        abs_diff(y0, y1) as nat
    }
}

/// How far along each axis the line has come after `k` steps, for a line
/// that spans `dx` by `dy`: `k` along the longer axis, and along the shorter
/// one the nearest integer to the same fraction of its span.
pub open spec fn line_offsets(dx: int, dy: int, k: int) -> (int, int) {
    if dx >= dy {
        (k, round_div(k * dy, dx))
    } else {
        (round_div(k * dx, dy), k)
    }
}

/// The pixel that the line from `(x0, y0)` to `(x1, y1)` reaches after `k`
/// steps.
pub open spec fn line_point(x0: int, y0: int, x1: int, y1: int, k: int) -> (int, int) {
    let o = line_offsets(abs_diff(x0, x1), abs_diff(y0, y1), k);
    (toward(x0, x1, o.0), toward(y0, y1, o.1))
}

/// The pixels of the line from `(x0, y0)` to `(x1, y1)`, in drawing order:
/// the near end first, the far end left out.
pub open spec fn line_points(x0: int, y0: int, x1: int, y1: int) -> Seq<(int, int)> {
    Seq::new(line_len(x0, y0, x1, y1), |k: int| line_point(x0, y0, x1, y1, k))
}

/// The error term that the stepping carries after `k` steps: the signed
/// distance, in units of the spans, between the pixel and the ideal line.
pub open spec fn line_error(dx: int, dy: int, k: int) -> int {
    let o = line_offsets(dx, dy, k);
    dx - dy - o.0 * dy + o.1 * dx
}

proof fn lemma_div_bounds(n: int, d: int)
    requires
        d > 0,
    ensures
        (n / d) * d <= n < (n / d) * d + d,
{
    lemma_fundamental_div_mod(n, d);
    lemma_mod_bound(n, d);
    assert(d * (n / d) == (n / d) * d) by (nonlinear_arith);
}

proof fn lemma_div_is(n: int, d: int, q: int)
    requires
        d > 0,
        q * d <= n < q * d + d,
    ensures
        n / d == q,
{
    lemma_fundamental_div_mod_converse(n, d, q, n - q * d);
}

/// Rounding follows the line one step further: after a step of `m` on a
/// span of `big`, the rounded quotient goes up by one exactly when the next
/// half-way mark has been reached, and stays otherwise.
pub proof fn lemma_round_div_step(p: int, m: int, big: int)
    requires
        big > 0,
        0 <= m <= big,
    ensures
        round_div(p + m, big) == if big * (2 * round_div(p, big) + 1) <= 2 * (p + m) {
            round_div(p, big) + 1
        } else {
            round_div(p, big)
        },
{
    let q = round_div(p, big);
    let t = q * big;
    lemma_div_bounds(2 * p + big, 2 * big);
    assert(q * (2 * big) == 2 * t) by (nonlinear_arith)
        requires
            t == q * big,
    ;
    assert(big * (2 * q + 1) == 2 * t + big) by (nonlinear_arith)
        requires
            t == q * big,
    ;
    assert((q + 1) * (2 * big) == 2 * t + 2 * big) by (nonlinear_arith)
        requires
            t == q * big,
    ;
    if big * (2 * q + 1) <= 2 * (p + m) {
        lemma_div_is(2 * (p + m) + big, 2 * big, q + 1);
    } else {
        lemma_div_is(2 * (p + m) + big, 2 * big, q);
    }
}

/// The rounded share of a span: nothing before the first step, all of `m`
/// after the last, and between the two within `0..=m`.
pub proof fn lemma_round_div_range(k: int, m: int, big: int)
    requires
        big > 0,
        0 <= m <= big,
        0 <= k <= big,
    ensures
        0 <= round_div(k * m, big) <= m,
        round_div(0 * m, big) == 0,
        round_div(big * m, big) == m,
{
    let q = round_div(k * m, big);
    lemma_div_bounds(2 * (k * m) + big, 2 * big);
    assert(0 <= k * m <= big * m) by (nonlinear_arith)
        requires
            0 <= k <= big,
            0 <= m,
    ;
    assert(m * (2 * big) == 2 * (big * m)) by (nonlinear_arith);
    if q < 0 {
        assert(q * (2 * big) + 2 * big <= 0) by (nonlinear_arith)
            requires
                q <= -1,
                big > 0,
        ;
    }
    if q > m {
        assert(q * (2 * big) >= m * (2 * big) + 2 * big) by (nonlinear_arith)
            requires
                q >= m + 1,
                big > 0,
        ;
    }
    assert(0 * m == 0);
    lemma_div_is(big, 2 * big, 0);
    lemma_div_is(2 * (big * m) + big, 2 * big, m);
}

/// The line starts at its near end, and after its last step stands on its
/// far end; in between it stays within the box that the two ends span.
pub proof fn lemma_line_ends(x0: int, y0: int, x1: int, y1: int, k: int)
    requires
        0 <= k <= line_len(x0, y0, x1, y1),
    ensures
        line_point(x0, y0, x1, y1, 0) == (x0, y0),
        line_point(x0, y0, x1, y1, line_len(x0, y0, x1, y1) as int) == (x1, y1),
        0 <= line_offsets(abs_diff(x0, x1), abs_diff(y0, y1), k).0 <= abs_diff(x0, x1),
        0 <= line_offsets(abs_diff(x0, x1), abs_diff(y0, y1), k).1 <= abs_diff(y0, y1),
        x0 <= line_point(x0, y0, x1, y1, k).0 <= x1 || x1 <= line_point(x0, y0, x1, y1, k).0 <= x0,
        y0 <= line_point(x0, y0, x1, y1, k).1 <= y1 || y1 <= line_point(x0, y0, x1, y1, k).1 <= y0,
        k < line_len(x0, y0, x1, y1) ==> line_point(x0, y0, x1, y1, k) != (x1, y1),
{
    let dx = abs_diff(x0, x1);
    let dy = abs_diff(y0, y1);
    let o = line_offsets(dx, dy, k);
    if dx >= dy {
        if dx > 0 {
            lemma_round_div_range(k, dy, dx);
            assert(0 * dy == 0);
        }
    } else {
        lemma_round_div_range(k, dx, dy);
        assert(0 * dx == 0);
    }
}

/// One step of the line. With `e` the error term after `k` steps, the line
/// moves along x exactly when `2 * e >= -dy` and along y exactly when
/// `2 * e <= dx`, each time by one pixel toward the far end, and the error
/// term takes up `-dy` for a step along x and `dx` for a step along y.
pub proof fn lemma_line_step(dx: int, dy: int, k: int)
    requires
        0 <= dx,
        0 <= dy,
        0 <= k,
        k < dx || k < dy,
    ensures
        ({
            let e = line_error(dx, dy, k);
            let o = line_offsets(dx, dy, k);
            let n = line_offsets(dx, dy, k + 1);
            &&& n.0 == if 2 * e >= -dy { o.0 + 1 } else { o.0 }
            &&& n.1 == if 2 * e <= dx { o.1 + 1 } else { o.1 }
            &&& line_error(dx, dy, k + 1) == e + (if 2 * e >= -dy { -dy } else { 0int }) + (if 2
                * e <= dx { dx } else { 0int })
            &&& -2 * (dx + dy) <= e <= 2 * (dx + dy)
        }),
{
    let e = line_error(dx, dy, k);
    if dx >= dy {
        let j = round_div(k * dy, dx);
        let t = j * dx;
        let p = k * dy;
        lemma_round_div_step(p, dy, dx);
        lemma_div_bounds(2 * p + dx, 2 * dx);
        assert((k + 1) * dy == p + dy) by (nonlinear_arith)
            requires
                p == k * dy,
        ;
        assert(j * (2 * dx) == 2 * t) by (nonlinear_arith)
            requires
                t == j * dx,
        ;
        assert(dx * (2 * j + 1) == 2 * t + dx) by (nonlinear_arith)
            requires
                t == j * dx,
        ;
        assert((j + 1) * dx == t + dx) by (nonlinear_arith)
            requires
                t == j * dx,
        ;
        assert(e == dx - dy - p + t);
    } else {
        let i = round_div(k * dx, dy);
        let t = i * dy;
        let p = k * dx;
        lemma_round_div_step(p, dx, dy);
        lemma_div_bounds(2 * p + dy, 2 * dy);
        assert((k + 1) * dx == p + dx) by (nonlinear_arith)
            requires
                p == k * dx,
        ;
        assert(i * (2 * dy) == 2 * t) by (nonlinear_arith)
            requires
                t == i * dy,
        ;
        assert(dy * (2 * i + 1) == 2 * t + dy) by (nonlinear_arith)
            requires
                t == i * dy,
        ;
        assert((i + 1) * dy == t + dy) by (nonlinear_arith)
            requires
                t == i * dy,
        ;
        assert(e == dx - dy - t + p);
    }
}

/// The line keeps within half a pixel of the straight line between its
/// ends: along the shorter axis, the offset after `k` steps differs from the
/// exact share `k * short / long` by at most one half.
pub proof fn lemma_line_is_near(dx: int, dy: int, k: int)
    requires
        0 <= dx,
        0 <= dy,
        0 <= k,
        k <= dx || k <= dy,
        0 < dx || 0 < dy,
    ensures
        ({
            let o = line_offsets(dx, dy, k);
            &&& dx >= dy ==> o.0 == k && -dx <= 2 * (k * dy - o.1 * dx) < dx
            &&& dx < dy ==> o.1 == k && -dy <= 2 * (k * dx - o.0 * dy) < dy
        }),
{
    if dx >= dy {
        lemma_div_bounds(2 * (k * dy) + dx, 2 * dx);
        let j = round_div(k * dy, dx);
        assert(j * (2 * dx) == 2 * (j * dx)) by (nonlinear_arith);
    } else {
        lemma_div_bounds(2 * (k * dx) + dy, 2 * dy);
        let i = round_div(k * dx, dy);
        assert(i * (2 * dy) == 2 * (i * dy)) by (nonlinear_arith);
    }
}

/// One turn of the stepping loop, on the loop's own terms. From the pixel
/// `(x, y)` and the error term `e` after `k` steps, a step along x where
/// `2 * e >= -dy` and one along y where `2 * e <= dx`, each toward the far
/// end, lead to the pixel and the error term after `k + 1` steps. The pixel
/// lies between the two ends, and the error term within twice the spans.
pub proof fn lemma_line_advance(
    x0: int,
    y0: int,
    x1: int,
    y1: int,
    k: int,
    x: int,
    y: int,
    e: int,
)
    requires
        0 <= k < line_len(x0, y0, x1, y1),
        (x, y) == line_point(x0, y0, x1, y1, k),
        e == line_error(abs_diff(x0, x1), abs_diff(y0, y1), k),
    ensures
        ({
            let dx = abs_diff(x0, x1);
            let dy = abs_diff(y0, y1);
            let nx = if 2 * e >= -dy { if x0 < x1 { x + 1 } else { x - 1 } } else { x };
            let ny = if 2 * e <= dx { if y0 < y1 { y + 1 } else { y - 1 } } else { y };
            let ne = e + (if 2 * e >= -dy { -dy } else { 0int }) + (if 2 * e <= dx { dx } else { 0int });
            &&& (nx, ny) == line_point(x0, y0, x1, y1, k + 1)
            &&& ne == line_error(dx, dy, k + 1)
            &&& -2 * (dx + dy) <= e <= 2 * (dx + dy)
            &&& (x0 <= x <= x1 || x1 <= x <= x0)
            &&& (y0 <= y <= y1 || y1 <= y <= y0)
            &&& (x, y) != (x1, y1)
        }),
{
    let dx = abs_diff(x0, x1);
    let dy = abs_diff(y0, y1);
    lemma_line_ends(x0, y0, x1, y1, k);
    lemma_line_ends(x0, y0, x1, y1, k + 1);
    lemma_line_step(dx, dy, k);
}

} // verus!
