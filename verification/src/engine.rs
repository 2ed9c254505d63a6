//! The pairwise Newtonian force primitive and the velocity kicks it induces.
//!
//! For two bodies at distance `r` (in subpixels, after rounding the Euclidean
//! norm down to an integer), the velocity kick one step imparts on a body of
//! the pair along an axis with signed separation `d` toward the other body of
//! mass `m` kilograms is
//!
//! ```text
//!   ((KICK_NUM * m * |d| / r^3) / KICK_DEN) * sign(d)   subpixels per step
//! ```
//!
//! where `KICK_NUM / KICK_DEN = G * dt * 25 / 256` collects the gravitational
//! constant `G = 6.67430e-11 m^3/(kg s^2)`, the step length `dt = 1/160 s`,
//! and the unit conversions (one pixel is 4e3 m and 10_000 subpixels): it is
//! the exact integer-rounded counterpart of Newton's
//! `G * m / r_m^2` decomposed through `cos/sin(atan2)` as `d / r`.
//! A pair at exactly zero distance exerts no force at all: the division would
//! be undefined there, and the step must stay finite.

use vstd::prelude::*;
use vstd::arithmetic::div_mod::{
    lemma_div_is_ordered, lemma_div_multiples_vanish, lemma_div_pos_is_pos,
};
use crate::body::{Body, wf_body, MASS_LIMIT, POS_LIMIT};
use crate::math::{sqrt_floor, isqrt};

verus! {

/// Numerator of the kick coefficient (see the module text).
pub const KICK_NUM: u128 = 66_743;

/// Denominator of the kick coefficient (see the module text).
pub const KICK_DEN: u128 = 10_240_000_000_000_000;

/// No single pair ever kicks harder than this many subpixels per step.
pub const KICK_BOUND: i64 = 100_000_000_000_000;

/// Magnitude of the velocity kick: `m` in kilograms, `a` the absolute
/// separation along the axis and `dist` the rounded distance, in subpixels.
pub open spec fn kick_mag(m: int, a: int, dist: int) -> int {
    ((KICK_NUM * m * a) / (dist * dist * dist)) / (KICK_DEN as int)
}

/// Signed kick along an axis whose signed separation toward the attracting
/// body is `d`: gravity pulls, so the kick carries the sign of `d`.
pub open spec fn kick_signed(m: int, d: int, dist: int) -> int {
    if d >= 0 {
        kick_mag(m, d, dist)
    } else {
        -kick_mag(m, -d, dist)
    }
}

/// Squared distance between two bodies, in squared subpixels.
pub open spec fn pair_dist2(a: Body, b: Body) -> int {
    (b.pos.x - a.pos.x) * (b.pos.x - a.pos.x) + (b.pos.y - a.pos.y) * (b.pos.y - a.pos.y)
}

/// Rounded distance between two bodies, in subpixels.
pub open spec fn pair_dist(a: Body, b: Body) -> int {
    sqrt_floor(pair_dist2(a, b))
}

/// Velocity kick on `a` from `b` along x; zero for a zero-distance pair.
pub open spec fn kick_on_x(a: Body, b: Body) -> int {
    if pair_dist2(a, b) == 0 {
        0
    } else {
        kick_signed(b.mass as int, b.pos.x - a.pos.x, pair_dist(a, b))
    }
}

/// Velocity kick on `a` from `b` along y; zero for a zero-distance pair.
pub open spec fn kick_on_y(a: Body, b: Body) -> int {
    if pair_dist2(a, b) == 0 {
        0
    } else {
        kick_signed(b.mass as int, b.pos.y - a.pos.y, pair_dist(a, b))
    }
}

/// `kick_mag` never exceeds `KICK_NUM * m / KICK_DEN`, hence `KICK_BOUND`.
pub proof fn lemma_kick_mag_bound(m: int, a: int, dist: int)
    requires
        0 <= m <= MASS_LIMIT,
        0 <= a <= dist,
        1 <= dist,
    ensures
        0 <= kick_mag(m, a, dist) <= KICK_BOUND,
{
    let num = KICK_NUM * m * a;
    let d3 = dist * dist * dist;
    assert(0 <= KICK_NUM * m * a && KICK_NUM * m * a <= KICK_NUM * m * dist
        && dist <= dist * dist * dist && 0 < dist * dist * dist) by (nonlinear_arith)
        requires 0 <= m, 0 <= a <= dist, 1 <= dist;
    lemma_div_pos_is_pos(num, d3);
    lemma_div_pos_is_pos(num / d3, KICK_DEN as int);
    // num / d3 <= KICK_NUM * m
    assert(KICK_NUM * m * dist <= KICK_NUM * m * d3) by (nonlinear_arith)
        requires 0 <= KICK_NUM * m, dist <= d3;
    lemma_div_is_ordered(num, KICK_NUM * m * d3, d3);
    lemma_div_multiples_vanish(KICK_NUM * m, d3);
    assert(d3 * (KICK_NUM * m) == KICK_NUM * m * d3) by (nonlinear_arith);
    assert(num / d3 <= KICK_NUM * m);
    // dividing by KICK_DEN keeps the order
    assert(KICK_NUM * m <= KICK_NUM * (MASS_LIMIT as int)) by (nonlinear_arith)
        requires m <= MASS_LIMIT;
    lemma_div_is_ordered(num / d3, KICK_NUM * (MASS_LIMIT as int), KICK_DEN as int);
    assert(KICK_NUM * (MASS_LIMIT as int) / (KICK_DEN as int) <= KICK_BOUND);
}

/// Computes `kick_mag` in machine arithmetic.
fn kick_mag_exec(m: u128, a: u128, dist: u128) -> (k: u128)
    requires
        1 <= m <= MASS_LIMIT,
        a <= dist,
        a <= 2 * POS_LIMIT,
        1 <= dist <= 600_000_000,
    ensures
        k == kick_mag(m as int, a as int, dist as int),
        k <= KICK_BOUND,
{
    proof {
        assert(0 <= (KICK_NUM as int) * (m as int) * (a as int)
            <= 266_972_000_000_000_000_000_000_000_000_000_000_000) by (nonlinear_arith)
            requires 1 <= m <= MASS_LIMIT as int, 0 <= a <= 2 * (POS_LIMIT as int);
        assert(0 < (dist as int) * (dist as int) <= 360_000_000_000_000_000
            && 0 < (dist as int) * (dist as int) * (dist as int)
            <= 216_000_000_000_000_000_000_000_000) by (nonlinear_arith)
            requires 1 <= dist <= 600_000_000;
        lemma_kick_mag_bound(m as int, a as int, dist as int);
    }
    let num = KICK_NUM * m * a;
    let d3 = dist * dist * dist;
    (num / d3) / KICK_DEN
}

/// The pairwise force primitive: the velocity kick one step imparts on `a`
/// from the gravity of `b`, as `(x, y)` subpixels per step. Both integration
/// schemes share it. A zero-distance pair imparts nothing.
pub fn pair_kick(a: &Body, b: &Body) -> (k: (i64, i64))
    requires
        wf_body(*a),
        wf_body(*b),
    ensures
        k.0 == kick_on_x(*a, *b),
        k.1 == kick_on_y(*a, *b),
        -KICK_BOUND <= k.0 <= KICK_BOUND,
        -KICK_BOUND <= k.1 <= KICK_BOUND,
{
    let ux: i64 = b.pos.x - a.pos.x;
    let uy: i64 = b.pos.y - a.pos.y;
    proof {
        assert(0 <= (ux as int) * (ux as int) <= 160_000_000_000_000_000
            && 0 <= (uy as int) * (uy as int) <= 160_000_000_000_000_000) by (nonlinear_arith)
            requires
                -2 * (POS_LIMIT as int) <= ux <= 2 * (POS_LIMIT as int),
                -2 * (POS_LIMIT as int) <= uy <= 2 * (POS_LIMIT as int);
    }
    let ux2: i128 = (ux as i128) * (ux as i128);
    let uy2: i128 = (uy as i128) * (uy as i128);
    let d2i: i128 = ux2 + uy2;
    if d2i == 0 {
        proof {
            assert(pair_dist2(*a, *b) == 0);
        }
        return (0, 0);
    }
    let d2: u128 = d2i as u128;
    let dist: u128 = isqrt(d2);
    proof {
        assert(pair_dist2(*a, *b) == d2 as int);
        assert(dist == pair_dist(*a, *b));
        assert(1 <= dist) by (nonlinear_arith)
            requires dist * dist <= d2 as int, (d2 as int) < (dist + 1) * (dist + 1), 1 <= d2;
        assert(dist <= 600_000_000) by (nonlinear_arith)
            requires dist * dist <= d2 as int, d2 <= 320_000_000_000_000_000;
        // |ux| <= dist and |uy| <= dist
        assert(-(dist as int) <= ux as int <= dist as int
            && -(dist as int) <= uy as int <= dist as int) by (nonlinear_arith)
            requires
                (ux as int) * (ux as int) + (uy as int) * (uy as int) == d2 as int,
                0 <= (ux as int) * (ux as int),
                0 <= (uy as int) * (uy as int),
                (d2 as int) < (dist + 1) * (dist + 1),
                0 <= dist;
    }
    let ax: u128 = if ux >= 0 { ux as u128 } else { (-ux) as u128 };
    let ay: u128 = if uy >= 0 { uy as u128 } else { (-uy) as u128 };
    let kx: u128 = kick_mag_exec(b.mass, ax, dist);
    let ky: u128 = kick_mag_exec(b.mass, ay, dist);
    let kxs: i64 = if ux >= 0 { kx as i64 } else { -(kx as i64) };
    let kys: i64 = if uy >= 0 { ky as i64 } else { -(ky as i64) };
    (kxs, kys)
}

} // verus!
