//! Colors: three 8-bit channels, scaled and blended without ever wrapping.

use crate::fixed::HALF;
use crate::fixed::ONE;
use vstd::prelude::*;

verus! {

/// An opaque color of one red, one green and one blue channel.
#[derive(Clone, Copy, Debug, PartialEq, Eq, Structural)]
pub struct Color {
    pub r: u8,
    pub g: u8,
    pub b: u8,
}

/// One channel times a Q16.16 factor: the product's integer part, held to
/// 0..=255. A negative factor gives 0.
pub open spec fn scale_channel(c: u8, factor: i32) -> u8 {
    if factor <= 0 {
        0u8
    } else if c * factor / (ONE as int) > 255 {
        255u8
    } else {
        (c * factor / (ONE as int)) as u8
    }
}

/// A color with every channel scaled by the Q16.16 `factor`.
pub open spec fn scaled_color(c: Color, factor: i32) -> Color {
    Color {
        r: scale_channel(c.r, factor),
        g: scale_channel(c.g, factor),
        b: scale_channel(c.b, factor),
    }
}

/// The blend of `a` and `b` at the Q16.16 fraction `t`, channel by channel.
pub open spec fn lerp_color(a: Color, b: Color, t: i32) -> Color {
    Color {
        r: lerp_channel(a.r, b.r, t),
        g: lerp_channel(a.g, b.g, t),
        b: lerp_channel(a.b, b.b, t),
    }
}

/// The channel at the Q16.16 fraction `t` of the way from `a` to `b`, to the
/// nearest integer (halves go up); `t` counts as 0 below 0 and as 1 above 1.
pub open spec fn lerp_channel(a: u8, b: u8, t: i32) -> u8 {
    let t = if t < 0 { 0 } else if t > ONE { ONE as int } else { t as int };
    (a + ((b - a) * t + HALF) / (ONE as int)) as u8
}

/// The color as one number, red in bits 16..24, green in 8..16, blue in 0..8.
pub open spec fn packed(c: Color) -> u32 {
    (c.r * 65536 + c.g * 256 + c.b) as u32
}

/// The color that a packed number holds in its low 24 bits.
pub open spec fn unpacked(hex: u32) -> Color {
    Color { r: (hex / 65536 % 256) as u8, g: (hex / 256 % 256) as u8, b: (hex % 256) as u8 }
}

/// A color survives packing and unpacking.
pub proof fn lemma_pack_round_trip(c: Color)
    ensures
        unpacked(packed(c)) == c,
        packed(c) < 0x100_0000,
{
}

/// A scaled channel is the channel itself at factor one, zero at factor zero
/// and below, never decreases as the factor grows, and stays within 0..=255
/// whatever the factor.
pub proof fn lemma_scale_channel(c: u8, f: i32, g: i32)
    ensures
        scale_channel(c, ONE) == c,
        f <= 0 ==> scale_channel(c, f) == 0,
        f <= g ==> scale_channel(c, f) <= scale_channel(c, g),
        0 <= scale_channel(c, f) <= 255,
{
    if 0 < f <= g {
        assert(c * f <= c * g) by (nonlinear_arith)
            requires
                0 <= c,
                f <= g,
        ;
    }
}

/// A blend starts at the first channel, ends at the second and stays between
/// the two.
pub proof fn lemma_lerp_channel(a: u8, b: u8, t: i32)
    ensures
        lerp_channel(a, b, 0) == a,
        lerp_channel(a, b, ONE) == b,
        a <= b ==> a <= lerp_channel(a, b, t) <= b,
        b <= a ==> b <= lerp_channel(a, b, t) <= a,
{
    let tc: int = if t < 0 { 0 } else if t > ONE { ONE as int } else { t as int };
    let d: int = b - a;
    assert(((b - a) * (ONE as int) + HALF) / (ONE as int) == b - a);
    if a <= b {
        assert(0 <= d * tc <= d * 65536) by (nonlinear_arith)
            requires
                0 <= d,
                0 <= tc <= 65536,
        ;
    } else {
        assert(d * 65536 <= d * tc <= 0) by (nonlinear_arith)
            requires
                d <= 0,
                0 <= tc <= 65536,
        ;
    }
}

impl Color {
    /// The color of the three channels given.
    pub fn new(r: u8, g: u8, b: u8) -> (c: Color)
        ensures
            c == (Color { r, g, b }),
    {
        Color { r, g, b }
    }

    /// Black: every channel 0.
    pub fn black() -> (c: Color)
        ensures
            c == (Color { r: 0, g: 0, b: 0 }),
    {
        Color { r: 0, g: 0, b: 0 }
    }

    /// The color held in the low 24 bits of `hex`.
    pub fn from_hex(hex: u32) -> (c: Color)
        ensures
            c == unpacked(hex),
    {
        Color { r: (hex / 65536 % 256) as u8, g: (hex / 256 % 256) as u8, b: (hex % 256) as u8 }
    }

    /// The color packed into one number.
    pub fn to_hex(&self) -> (hex: u32)
        ensures
            hex == packed(*self),
    {
        (self.r as u32) * 65536 + (self.g as u32) * 256 + (self.b as u32)
    }

    /// Every channel times the Q16.16 `factor`, clamped to 0..=255.
    pub fn scale(&self, factor: i32) -> (c: Color)
        ensures
            c == scaled_color(*self, factor),
    {
        Color {
            r: scaled(self.r, factor),
            g: scaled(self.g, factor),
            b: scaled(self.b, factor),
        }
    }

    /// The blend of this color and `other` at the Q16.16 fraction `t`, which
    /// is held to 0..=1: this color at 0, `other` at 1.
    pub fn lerp(&self, other: &Color, t: i32) -> (c: Color)
        ensures
            c == lerp_color(*self, *other, t),
    {
        Color {
            r: blended(self.r, other.r, t),
            g: blended(self.g, other.g, t),
            b: blended(self.b, other.b, t),
        }
    }
}

fn scaled(c: u8, factor: i32) -> (s: u8)
    ensures
        s == scale_channel(c, factor),
{
    if factor <= 0 {
        0
    } else {
        assert(0 <= c * factor <= 255 * 0x7fff_ffff) by (nonlinear_arith)
            requires
                0 <= c <= 255,
                0 < factor <= 0x7fff_ffff,
        ;
        let p: i64 = (c as i64) * (factor as i64) / 65536;
        if p > 255 {
            255
        } else {
            p as u8
        }
    }
}

fn blended(a: u8, b: u8, t: i32) -> (s: u8)
    ensures
        s == lerp_channel(a, b, t),
{
    let tc: i64 = if t < 0 { 0 } else if t > ONE { 65536 } else { t as i64 };
    let d: i64 = (b as i64) - (a as i64);
    proof {
        lemma_lerp_channel(a, b, t);
        assert(-255 * 65536 <= d * tc <= 255 * 65536) by (nonlinear_arith)
            requires
                -255 <= d <= 255,
                0 <= tc <= 65536,
        ;
    }
    // Shifted by 255 whole steps, the dividend is not negative, and the
    // quotient is the rounded-down one.
    let q: i64 = (d * tc + 32768 + 255 * 65536) / 65536 - 255;
    ((a as i64) + q) as u8
}

} // verus!
