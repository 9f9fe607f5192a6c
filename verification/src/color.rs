//! RGB colors and integer linear interpolation between them.
//!
//! Progress values throughout the crate are fixed-point fractions with
//! denominator [`SCALE`]: `0` stands for `0.0` and `SCALE` for `1.0`.

use vstd::arithmetic::div_mod::{lemma_div_is_ordered, lemma_div_multiples_vanish, lemma_div_of0};
use vstd::arithmetic::mul::lemma_mul_inequality;
use vstd::prelude::*;

verus! {

/// Denominator of the fixed-point progress fractions used by the engine.
pub const SCALE: u32 = 1000;

/// A 24-bit RGB color.
#[derive(Clone, Copy, Debug, PartialEq, Eq, Structural)]
pub struct Color {
    pub r: u8,
    pub g: u8,
    pub b: u8,
}

/// Value of one interpolated channel: `a` moved toward `b` by the
/// fraction `e / SCALE`, rounded toward `a`.
pub open spec fn lerp_channel_spec(a: u8, b: u8, e: nat) -> int {
    if b >= a {
        a + (b - a) * e / (SCALE as int)
    } else {
        a - (a - b) * e / (SCALE as int)
    }
}

/// All three channels interpolated with the same fraction.
pub open spec fn lerp_color_spec(a: Color, b: Color, e: nat) -> Color {
    Color {
        r: lerp_channel_spec(a.r, b.r, e) as u8,
        g: lerp_channel_spec(a.g, b.g, e) as u8,
        b: lerp_channel_spec(a.b, b.b, e) as u8,
    }
}

/// The interpolated channel lies between the two endpoints, and meets
/// them exactly at fractions `0` and `SCALE`.
pub proof fn lemma_lerp_channel_bounds(a: u8, b: u8, e: nat)
    requires
        e <= SCALE,
    ensures
        a <= b ==> a <= lerp_channel_spec(a, b, e) <= b,
        a >= b ==> b <= lerp_channel_spec(a, b, e) <= a,
        e == 0 ==> lerp_channel_spec(a, b, e) == a,
        e == SCALE ==> lerp_channel_spec(a, b, e) == b,
{
    let s = SCALE as int;
    let d: int = if b >= a { b - a } else { a - b };
    lemma_mul_inequality(e as int, s, d);
    assert(d * e == e * d) by (nonlinear_arith);
    assert(d * s == s * d) by (nonlinear_arith);
    lemma_div_is_ordered(0, d * e, s);
    lemma_div_is_ordered(d * e, d * s, s);
    lemma_div_multiples_vanish(d, s);
    lemma_div_of0(s);
    assert(e == 0 ==> d * e == 0) by (nonlinear_arith);
}

/// Moving the fraction further moves the channel further toward `b`.
pub proof fn lemma_lerp_channel_monotone(a: u8, b: u8, e1: nat, e2: nat)
    requires
        e1 <= e2 <= SCALE,
    ensures
        a <= b ==> lerp_channel_spec(a, b, e1) <= lerp_channel_spec(a, b, e2),
        a >= b ==> lerp_channel_spec(a, b, e1) >= lerp_channel_spec(a, b, e2),
{
    let s = SCALE as int;
    let d: int = if b >= a { b - a } else { a - b };
    lemma_mul_inequality(e1 as int, e2 as int, d);
    assert(d * e1 == e1 * d) by (nonlinear_arith);
    assert(d * e2 == e2 * d) by (nonlinear_arith);
    lemma_div_is_ordered(d * e1, d * e2, s);
}

/// One channel of the interpolation, executable form.
pub fn lerp_channel(a: u8, b: u8, e: u32) -> (r: u8)
    requires
        e <= SCALE,
    ensures
        r as int == lerp_channel_spec(a, b, e as nat),
{
    proof {
        lemma_lerp_channel_bounds(a, b, e as nat);
    }
    if b >= a {
        let d: u32 = (b - a) as u32;
        let step: u32 = d * e / SCALE;
        a + (step as u8)
    } else {
        let d: u32 = (a - b) as u32;
        let step: u32 = d * e / SCALE;
        a - (step as u8)
    }
}

/// Interpolate all three channels of a color pair, executable form.
pub fn lerp_color(a: Color, b: Color, e: u32) -> (r: Color)
    requires
        e <= SCALE,
    ensures
        r == lerp_color_spec(a, b, e as nat),
{
    Color { r: lerp_channel(a.r, b.r, e), g: lerp_channel(a.g, b.g, e), b: lerp_channel(a.b, b.b, e) }
}

} // verus!
