//! Q16.16 fixed-point scalars: the integer `v` stands for the real `v / ONE`.

use vstd::arithmetic::div_mod::lemma_fundamental_div_mod;
use vstd::arithmetic::div_mod::lemma_fundamental_div_mod_converse;
use vstd::prelude::*;

verus! {

/// The real number 1.
pub const ONE: i32 = 65536;

/// The real number 1/2.
pub const HALF: i32 = 32768;

/// The widest magnitude that `div_floor` takes: 2^120.
pub const WIDE: i128 = 0x100_0000_0000_0000_0000_0000_0000_0000;

/// Whether `r` squares to at most `n` and its successor squares above `n`.
pub open spec fn is_sqrt_floor(n: nat, r: nat) -> bool {
    r * r <= n < (r + 1) * (r + 1)
}

/// The integer part of the square root of `n`.
pub open spec fn sqrt_floor(n: nat) -> nat {
    choose|r: nat| is_sqrt_floor(n, r)
}

/// Two integer square roots of one number are equal.
pub proof fn lemma_sqrt_floor_unique(n: nat, r: nat, s: nat)
    requires
        r * r <= n < (r + 1) * (r + 1),
        s * s <= n < (s + 1) * (s + 1),
    ensures
        r == s,
{
    if r < s {
        assert((r + 1) * (r + 1) <= s * s) by (nonlinear_arith)
            requires
                r + 1 <= s,
        ;
    } else if s < r {
        assert((s + 1) * (s + 1) <= r * r) by (nonlinear_arith)
            requires
                s + 1 <= r,
        ;
    }
}

/// Every number has an integer square root.
pub proof fn lemma_sqrt_floor_exists(n: nat)
    ensures
        is_sqrt_floor(n, sqrt_floor(n)),
    decreases n,
{
    if n == 0 {
        assert(0nat * 0nat <= 0 < (0nat + 1) * (0nat + 1)) by (nonlinear_arith);
        assert(is_sqrt_floor(0, 0));
    } else {
        lemma_sqrt_floor_exists((n - 1) as nat);
        let r = sqrt_floor((n - 1) as nat);
        if n < (r + 1) * (r + 1) {
            assert(is_sqrt_floor(n, r));
        } else {
            assert((r + 1) * (r + 1) <= n < (r + 2) * (r + 2)) by (nonlinear_arith)
                requires
                    r * r <= n - 1 < (r + 1) * (r + 1),
                    n >= (r + 1) * (r + 1),
            ;
            assert(is_sqrt_floor(n, r + 1));
        }
    }
}

/// Whoever squares to at most `n`, with the successor squaring above it, is
/// the integer square root of `n`.
pub proof fn lemma_sqrt_floor_is(n: nat, r: nat)
    requires
        r * r <= n < (r + 1) * (r + 1),
    ensures
        sqrt_floor(n) == r,
{
    assert(is_sqrt_floor(n, r));
    let s = sqrt_floor(n);
    lemma_sqrt_floor_unique(n, r, s);
}

/// The product of two Q16.16 numbers, rounded down and held to the range of
/// `i32`.
pub open spec fn fixed_product(a: i32, b: i32) -> i32 {
    let p = a * b / (ONE as int);
    if p < -0x8000_0000 {
        -0x8000_0000i32
    } else if p > 0x7fff_ffff {
        0x7fff_ffffi32
    } else {
        p as i32
    }
}

/// The product of two Q16.16 numbers.
pub fn times(a: i32, b: i32) -> (p: i32)
    ensures
        p == fixed_product(a, b),
{
    assert(-0x4000_0000_0000_0000 <= a * b <= 0x4000_0000_0000_0000) by (nonlinear_arith)
        requires
            -0x8000_0000 <= a <= 0x8000_0000,
            -0x8000_0000 <= b <= 0x8000_0000,
    ;
    let q: i128 = div_floor((a as i128) * (b as i128), 65536);
    if q < -0x8000_0000 {
        -0x8000_0000
    } else if q > 0x7fff_ffff {
        0x7fff_ffff
    } else {
        q as i32
    }
}

/// The quotient of `n` by `d`, rounded toward negative infinity.
pub fn div_floor(n: i128, d: i128) -> (q: i128)
    requires
        0 < d,
        -WIDE <= n <= WIDE,
    ensures
        q == n / d,
{
    if n >= 0 {
        n / d
    } else {
        let m: i128 = -n;
        let t: i128 = m / d;
        let r: i128 = m % d;
        proof {
            lemma_fundamental_div_mod(m as int, d as int);
            assert(0 <= t <= m) by (nonlinear_arith)
                requires
                    m == d * t + r,
                    0 <= r < d,
                    0 < d,
                    0 <= m,
            ;
        }
        if r == 0 {
            proof {
                assert(n == (-t) * d + 0) by (nonlinear_arith)
                    requires
                        n == -m,
                        m == d * t,
                ;
                lemma_fundamental_div_mod_converse(n as int, d as int, -t as int, 0);
            }
            -t
        } else {
            proof {
                assert(n == (-t - 1) * d + (d - r)) by (nonlinear_arith)
                    requires
                        n == -m,
                        m == d * t + r,
                ;
                lemma_fundamental_div_mod_converse(n as int, d as int, -t - 1, d - r);
            }
            -t - 1
        }
    }
}

/// The integer square root, by bisection.
pub fn isqrt(n: u128) -> (r: u64)
    requires
        n < 0x4000_0000_0000_0000_0000_0000_0000_0000,
    ensures
        r == sqrt_floor(n as nat),
        r * r <= n < (r + 1) * (r + 1),
{
    let mut lo: u128 = 0;
    let mut hi: u128 = 0x8000_0000_0000_0000;
    assert(0x8000_0000_0000_0000u128 * 0x8000_0000_0000_0000u128
        == 0x4000_0000_0000_0000_0000_0000_0000_0000u128) by (nonlinear_arith);
    while hi - lo > 1
        invariant
            lo < hi <= 0x8000_0000_0000_0000,
            lo * lo <= n < hi * hi,
        decreases hi - lo,
    {
        let mid: u128 = lo + (hi - lo) / 2;
        assert(mid * mid < 0x8000_0000_0000_0000 * 0x8000_0000_0000_0000) by (nonlinear_arith)
            requires
                0 <= mid < 0x8000_0000_0000_0000,
        ;
        if mid * mid <= n {
            lo = mid;
        } else {
            hi = mid;
        }
    }
    proof {
        lemma_sqrt_floor_is(n as nat, lo as nat);
    }
    lo as u64
}

} // verus!
