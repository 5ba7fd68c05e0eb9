//! Radiance and reflectance triples.
//!
//! A `Color` stores three fixed-point channels (scale `fixed::SCALE`): as
//! radiance the channels are non-negative and capped at `RADIANCE_MAX`, as
//! an albedo they lie in `[0, SCALE]` (reflectance zero to one).

use crate::fixed::{abs_i, lemma_tdiv, tdiv, tdiv_i128, SCALE};
use vstd::prelude::*;

verus! {

/// Largest radiance value a channel can carry (2^40 raw, about sixteen
/// million in world brightness): the estimator saturates here instead of
/// overflowing.
pub const RADIANCE_MAX: i64 = 1099511627776;

/// Channel bound accepted by `add` and `scale` (2^45): room for a few
/// thousand accumulated full-brightness samples.
pub const CHANNEL_MAX: i64 = 35184372088832;

/// An (r, g, b) triple of fixed-point channels, linear and unclamped.
#[derive(Clone, Copy, Debug, PartialEq, Eq, Structural)]
pub struct Color {
    pub r: i64,
    pub g: i64,
    pub b: i64,
}

/// Valid radiance: all channels in `[0, RADIANCE_MAX]`.
pub open spec fn color_in_range(c: Color) -> bool {
    0 <= c.r <= RADIANCE_MAX && 0 <= c.g <= RADIANCE_MAX && 0 <= c.b <= RADIANCE_MAX
}

/// Valid albedo: all channels in `[0, SCALE]`, reflectance zero to one.
pub open spec fn is_albedo(c: Color) -> bool {
    0 <= c.r <= SCALE && 0 <= c.g <= SCALE && 0 <= c.b <= SCALE
}

/// Monochrome: all channels equal.
pub open spec fn is_mono(c: Color) -> bool {
    c.r == c.g && c.g == c.b
}

/// One channel of a quantisation: scaled to 0..255 and clamped.
pub open spec fn quantise_channel(v: int) -> int {
    let s: int = tdiv(v * 255, SCALE as int);
    if s < 0 {
        0
    } else if s > 255 {
        255
    } else {
        s
    }
}

impl Color {
    /// The zero radiance.
    pub fn black() -> (c: Color)
        ensures
            c == (Color { r: 0, g: 0, b: 0 }),
    {
        Color { r: 0, g: 0, b: 0 }
    }

    /// Channelwise sum (exact).
    pub fn add(self, other: Color) -> (c: Color)
        requires
            abs_i(self.r as int) <= CHANNEL_MAX as int,
            abs_i(self.g as int) <= CHANNEL_MAX as int,
            abs_i(self.b as int) <= CHANNEL_MAX as int,
            abs_i(other.r as int) <= CHANNEL_MAX as int,
            abs_i(other.g as int) <= CHANNEL_MAX as int,
            abs_i(other.b as int) <= CHANNEL_MAX as int,
        ensures
            c.r == self.r + other.r,
            c.g == self.g + other.g,
            c.b == self.b + other.b,
    {
        Color { r: self.r + other.r, g: self.g + other.g, b: self.b + other.b }
    }

    /// Channelwise product, rounded toward zero: radiance filtered by an
    /// albedo.
    pub fn mul(self, other: Color) -> (c: Color)
        requires
            color_in_range(self),
            is_albedo(other),
        ensures
            c.r == tdiv(self.r * other.r, SCALE as int),
            c.g == tdiv(self.g * other.g, SCALE as int),
            c.b == tdiv(self.b * other.b, SCALE as int),
            color_in_range(c),
            is_mono(self) && is_mono(other) ==> is_mono(c),
    {
        proof {
            lemma_mul_channel(self.r as int, other.r as int);
            lemma_mul_channel(self.g as int, other.g as int);
            lemma_mul_channel(self.b as int, other.b as int);
        }
        Color {
            r: tdiv_i128((self.r as i128) * (other.r as i128), SCALE as i128) as i64,
            g: tdiv_i128((self.g as i128) * (other.g as i128), SCALE as i128) as i64,
            b: tdiv_i128((self.b as i128) * (other.b as i128), SCALE as i128) as i64,
        }
    }

    /// Scaling by a fixed-point factor, rounded toward zero (exact contract,
    /// no clamping).
    pub fn scale(self, k: i64) -> (c: Color)
        requires
            abs_i(self.r as int) <= CHANNEL_MAX as int,
            abs_i(self.g as int) <= CHANNEL_MAX as int,
            abs_i(self.b as int) <= CHANNEL_MAX as int,
            0 <= k <= 2 * SCALE,
        ensures
            c.r == tdiv(self.r * k, SCALE as int),
            c.g == tdiv(self.g * k, SCALE as int),
            c.b == tdiv(self.b * k, SCALE as int),
    {
        proof {
            lemma_scale_channel(self.r as int, k as int);
            lemma_scale_channel(self.g as int, k as int);
            lemma_scale_channel(self.b as int, k as int);
        }
        Color {
            r: tdiv_i128((self.r as i128) * (k as i128), SCALE as i128) as i64,
            g: tdiv_i128((self.g as i128) * (k as i128), SCALE as i128) as i64,
            b: tdiv_i128((self.b as i128) * (k as i128), SCALE as i128) as i64,
        }
    }

    /// Scaling radiance by a weight in `[0, 2 * SCALE]`, saturating at
    /// `RADIANCE_MAX`: the estimator's weighting step.
    pub fn scale_clamped(self, k: i64) -> (c: Color)
        requires
            color_in_range(self),
            0 <= k <= 2 * SCALE,
        ensures
            c.r == clamp_radiance(tdiv(self.r * k, SCALE as int)),
            c.g == clamp_radiance(tdiv(self.g * k, SCALE as int)),
            c.b == clamp_radiance(tdiv(self.b * k, SCALE as int)),
            color_in_range(c),
            is_mono(self) ==> is_mono(c),
    {
        let s: Color = self.scale(k);
        proof {
            lemma_tdiv(self.r * k, SCALE as int);
            lemma_tdiv(self.g * k, SCALE as int);
            lemma_tdiv(self.b * k, SCALE as int);
        }
        Color {
            r: if s.r > RADIANCE_MAX {
                RADIANCE_MAX
            } else {
                s.r
            },
            g: if s.g > RADIANCE_MAX {
                RADIANCE_MAX
            } else {
                s.g
            },
            b: if s.b > RADIANCE_MAX {
                RADIANCE_MAX
            } else {
                s.b
            },
        }
    }

    /// The 8-bit (r, g, b) triple of this colour: each channel scaled so
    /// that one maps to 255, then clamped to `0..=255`.
    pub fn quantise(self) -> (q: (u8, u8, u8))
        ensures
            q.0 == quantise_channel(self.r as int),
            q.1 == quantise_channel(self.g as int),
            q.2 == quantise_channel(self.b as int),
    {
        (
            quantise_one(self.r),
            quantise_one(self.g),
            quantise_one(self.b),
        )
    }
}

/// Quantise one channel.
fn quantise_one(v: i64) -> (q: u8)
    ensures
        q == quantise_channel(v as int),
{
    proof {
        lemma_tdiv(v * 255, SCALE as int);
    }
    let s: i128 = tdiv_i128((v as i128) * 255, SCALE as i128);
    if s < 0 {
        0
    } else if s > 255 {
        255
    } else {
        s as u8
    }
}

/// A radiance channel filtered by an albedo channel stays in range.
proof fn lemma_mul_channel(a: int, b: int)
    requires
        0 <= a <= RADIANCE_MAX as int,
        0 <= b <= SCALE as int,
    ensures
        0 <= tdiv(a * b, SCALE as int) <= RADIANCE_MAX as int,
        abs_i(a * b) <= RADIANCE_MAX as int * SCALE as int,
{
    crate::fixed::lemma_abs_mul_bound(a, b, RADIANCE_MAX as int, SCALE as int);
    lemma_tdiv(a * b, SCALE as int);
    assert(a * b >= 0) by (nonlinear_arith)
        requires
            a >= 0,
            b >= 0,
    ;
    assert((SCALE as int) * (RADIANCE_MAX as int) == RADIANCE_MAX as int * SCALE as int)
        by (nonlinear_arith);
    assert((SCALE as int) * tdiv(a * b, SCALE as int) <= RADIANCE_MAX as int * SCALE as int);
    assert(tdiv(a * b, SCALE as int) <= RADIANCE_MAX as int) by (nonlinear_arith)
        requires
            (SCALE as int) * tdiv(a * b, SCALE as int) <= (SCALE as int) * (RADIANCE_MAX as int),
            SCALE as int > 0,
    ;
}

/// A channel scaled by a factor up to `2 * SCALE` stays well inside `i64`.
proof fn lemma_scale_channel(a: int, k: int)
    requires
        abs_i(a) <= CHANNEL_MAX as int,
        0 <= k <= 2 * SCALE as int,
    ensures
        abs_i(a * k) <= CHANNEL_MAX as int * (2 * SCALE as int),
        abs_i(tdiv(a * k, SCALE as int)) <= 4 * CHANNEL_MAX as int,
{
    crate::fixed::lemma_abs_mul_bound(a, k, CHANNEL_MAX as int, 2 * SCALE as int);
    lemma_tdiv(a * k, SCALE as int);
    vstd::arithmetic::div_mod::lemma_div_is_ordered(
        abs_i(a * k),
        CHANNEL_MAX as int * (2 * SCALE as int),
        SCALE as int,
    );
    assert(CHANNEL_MAX as int * (2 * SCALE as int) / (SCALE as int) == 2 * CHANNEL_MAX as int);
}

/// `clamp_radiance(v)`: `v` capped at `RADIANCE_MAX` (values below zero do
/// not arise where it is used).
pub open spec fn clamp_radiance(v: int) -> int {
    if v > RADIANCE_MAX as int {
        RADIANCE_MAX as int
    } else {
        v
    }
}

} // verus!
