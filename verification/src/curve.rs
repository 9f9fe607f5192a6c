//! Easing curves over fixed-point progress fractions.
//!
//! Each curve maps a progress fraction `t` in `[0, SCALE]` to an eased
//! fraction in `[0, SCALE]`, with `ease(0) == 0` and `ease(SCALE) == SCALE`.

use crate::color::SCALE;
use vstd::arithmetic::div_mod::{
    lemma_div_is_ordered, lemma_div_multiples_vanish, lemma_div_of0,
};
use vstd::arithmetic::mul::lemma_mul_inequality;
use vstd::prelude::*;

verus! {

/// The supported easing curve kinds.
#[derive(Clone, Copy, Debug, PartialEq, Eq, Structural)]
pub enum Interpolation {
    /// The identity curve: eased progress equals raw progress.
    Linear,
    /// Quadratic ease-in: `t * t`.
    QuadIn,
    /// Quadratic ease-out: `1 - (1 - t) * (1 - t)`.
    QuadOut,
    /// Circular ease-in: `1 - sqrt(1 - t * t)`.
    CircIn,
}

/// The greatest `r` with `r * r <= n`.
pub open spec fn sqrt_floor(n: nat) -> nat
    decreases n,
{
    if n == 0 {
        0
    } else {
        let r = sqrt_floor((n - 1) as nat);
        if (r + 1) * (r + 1) <= n {
            r + 1
        } else {
            r
        }
    }
}

/// `sqrt_floor(n)` is the floor of the square root of `n`.
pub proof fn lemma_sqrt_floor_bounds(n: nat)
    ensures
        sqrt_floor(n) * sqrt_floor(n) <= n,
        n < (sqrt_floor(n) + 1) * (sqrt_floor(n) + 1),
    decreases n,
{
    if n == 0 {
        assert(sqrt_floor(0) == 0);
        assert(sqrt_floor(0) * sqrt_floor(0) <= 0) by (nonlinear_arith)
            requires sqrt_floor(0) == 0;
        assert(0 < (sqrt_floor(0) + 1) * (sqrt_floor(0) + 1)) by (nonlinear_arith)
            requires sqrt_floor(0) == 0;
    } else {
        lemma_sqrt_floor_bounds((n - 1) as nat);
        let r = sqrt_floor((n - 1) as nat);
        let s = sqrt_floor(n);
        if (r + 1) * (r + 1) <= n {
            assert(s == r + 1);
            assert(n - 1 < (r + 1) * (r + 1));
            assert((r + 1) * (r + 1) < (r + 2) * (r + 2)) by (nonlinear_arith);
            assert(s * s <= n);
            assert(n < (s + 1) * (s + 1));
        } else {
            assert(s == r);
            assert(s * s <= n - 1 <= n);
            assert(n < (s + 1) * (s + 1));
        }
    }
}

/// Any `r` bracketed by `r * r <= n < (r + 1) * (r + 1)` is `sqrt_floor(n)`.
pub proof fn lemma_sqrt_floor_unique(n: nat, r: nat)
    requires
        r * r <= n,
        n < (r + 1) * (r + 1),
    ensures
        r == sqrt_floor(n),
{
    lemma_sqrt_floor_bounds(n);
    let s = sqrt_floor(n);
    if r < s {
        assert((r + 1) * (r + 1) <= s * s) by (nonlinear_arith)
            requires r + 1 <= s;
    }
    if s < r {
        assert((s + 1) * (s + 1) <= r * r) by (nonlinear_arith)
            requires s + 1 <= r;
    }
}

/// Floor of the square root, executable form.
pub fn isqrt(n: u32) -> (r: u32)
    requires
        n <= SCALE * SCALE,
    ensures
        r == sqrt_floor(n as nat),
        r <= SCALE,
{
    let mut r: u32 = 0;
    loop
        invariant
            n <= SCALE * SCALE,
            r <= SCALE,
            r * r <= n,
        ensures
            r <= SCALE,
            r * r <= n,
            n < (r + 1) * (r + 1),
        decreases n - r,
    {
        proof {
            assert((r + 1) * (r + 1) <= 1001 * 1001) by (nonlinear_arith)
                requires r <= 1000;
        }
        let q: u32 = (r + 1) * (r + 1);
        if q <= n {
            proof {
                assert(r + 1 <= SCALE) by (nonlinear_arith)
                    requires (r + 1) * (r + 1) <= SCALE * SCALE, SCALE == 1000;
                assert(r + 1 <= (r + 1) * (r + 1)) by (nonlinear_arith);
            }
            r = r + 1;
        } else {
            break;
        }
    }
    proof {
        lemma_sqrt_floor_unique(n as nat, r as nat);
    }
    r
}

/// Eased progress fraction for curve `c` at raw progress `t`.
pub open spec fn ease_spec(c: Interpolation, t: nat) -> nat {
    let s = SCALE as int;
    let ti = t as int;
    match c {
        Interpolation::Linear => t,
        Interpolation::QuadIn => (ti * ti / s) as nat,
        Interpolation::QuadOut => (s - (s - ti) * (s - ti) / s) as nat,
        Interpolation::CircIn => (s - sqrt_floor((s * s - ti * ti) as nat)) as nat,
    }
}

/// A square of a fraction, divided back by `SCALE`, is at most the
/// fraction itself; helper for the curve bounds.
proof fn lemma_square_fraction_le(t: int)
    requires
        0 <= t <= SCALE,
    ensures
        0 <= t * t / (SCALE as int) <= t,
        t == SCALE ==> t * t / (SCALE as int) == t,
        t == 0 ==> t * t / (SCALE as int) == 0,
{
    let s = SCALE as int;
    lemma_mul_inequality(t, s, t);
    assert(t * s == s * t) by (nonlinear_arith);
    assert(t * t >= 0) by (nonlinear_arith);
    lemma_div_is_ordered(0, t * t, s);
    lemma_div_is_ordered(t * t, t * s, s);
    lemma_div_multiples_vanish(t, s);
    lemma_div_of0(s);
    assert(t == 0 ==> t * t == 0) by (nonlinear_arith);
}

/// Every curve maps `[0, SCALE]` into `[0, SCALE]`, sends `0` to `0`
/// and `SCALE` to `SCALE`.
pub proof fn lemma_ease_bounds(c: Interpolation, t: nat)
    requires
        t <= SCALE,
    ensures
        ease_spec(c, t) <= SCALE,
        t == 0 ==> ease_spec(c, t) == 0,
        t == SCALE ==> ease_spec(c, t) == SCALE,
{
    let s = SCALE as int;
    let ti = t as int;
    lemma_square_fraction_le(ti);
    lemma_square_fraction_le(s - ti);
    match c {
        Interpolation::CircIn => {
            let m = (s * s - ti * ti) as nat;
            lemma_sqrt_floor_bounds(m);
            assert(ti * ti <= s * s) by (nonlinear_arith)
                requires 0 <= ti <= s;
            assert(sqrt_floor(m) <= s) by {
                if sqrt_floor(m) > s {
                    assert(s * s < sqrt_floor(m) * sqrt_floor(m)) by (nonlinear_arith)
                        requires 0 <= s < sqrt_floor(m);
                }
            }
            if t == 0 {
                assert(ti * ti == 0) by (nonlinear_arith)
                    requires ti == 0;
                assert(m == s * s);
                assert(s * s < (s + 1) * (s + 1)) by (nonlinear_arith)
                    requires s >= 0;
                lemma_sqrt_floor_unique(m, SCALE as nat);
            }
            if ti == s {
                assert(m == 0) by (nonlinear_arith)
                    requires ti == s, m == s * s - ti * ti;
            }
        },
        _ => {},
    }
}

/// Eased progress, executable form.
pub fn ease(c: Interpolation, t: u32) -> (r: u32)
    requires
        t <= SCALE,
    ensures
        r == ease_spec(c, t as nat),
        r <= SCALE,
{
    proof {
        lemma_ease_bounds(c, t as nat);
    }
    match c {
        Interpolation::Linear => t,
        Interpolation::QuadIn => t * t / SCALE,
        Interpolation::QuadOut => {
            let u: u32 = SCALE - t;
            proof {
                assert(u * u <= 1000 * 1000) by (nonlinear_arith)
                    requires u <= 1000;
            }
            SCALE - u * u / SCALE
        },
        Interpolation::CircIn => {
            proof {
                assert(t * t <= SCALE * SCALE) by (nonlinear_arith)
                    requires t <= SCALE;
            }
            SCALE - isqrt(SCALE * SCALE - t * t)
        },
    }
}

} // verus!
