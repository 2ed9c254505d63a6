//! The body record: one point mass with its physical state, its rendering
//! attributes and its motion trail, together with the limits that keep every
//! step of the fixed-point arithmetic inside machine range.

use vstd::prelude::*;

verus! {

/// Entries kept in each body's motion trail.
pub const TRAIL_LEN: usize = 200;

/// Largest coordinate magnitude, in subpixels (20_000 pixels).
pub const POS_LIMIT: i64 = 200_000_000;

/// Largest velocity magnitude, in subpixels per step (40_000 pixels a step).
pub const VEL_LIMIT: i64 = 400_000_000;

/// Largest mass, in kilograms (10^25, comfortably above Earth's 5.972e24).
pub const MASS_LIMIT: u128 = 10_000_000_000_000_000_000_000_000;

/// Largest number of bodies a store may hold.
pub const N_LIMIT: usize = 1024;

/// A position or velocity in the fixed-point plane, in subpixels.
#[derive(Clone, Copy, PartialEq, Eq, Structural, Debug)]
pub struct Vec2i {
    pub x: i64,
    pub y: i64,
}

/// One simulated point mass.
///
/// Positions live in a bottom-left-origin plane measured in subpixels
/// (10_000 subpixels to the pixel, one pixel standing for 4e3 m); a renderer
/// whose origin is the top left must flip the y axis itself. Velocities are
/// in subpixels per step, the mass in kilograms. The radius and color are
/// rendering attributes the physics never reads, except that the trail pen
/// width is derived from the radius by the host. The trail holds the
/// `TRAIL_LEN` most recent positions, oldest first.
#[derive(PartialEq, Eq, Debug)]
pub struct Body {
    pub pos: Vec2i,
    pub vel: Vec2i,
    pub mass: u128,
    pub radius: u32,
    pub color: u32,
    pub trail: Vec<Vec2i>,
}

/// The invariant every body keeps: state within the fixed-point limits,
/// strictly positive mass and radius, full-length trail.
pub open spec fn wf_body(b: Body) -> bool {
    &&& -POS_LIMIT <= b.pos.x <= POS_LIMIT
    &&& -POS_LIMIT <= b.pos.y <= POS_LIMIT
    &&& -VEL_LIMIT <= b.vel.x <= VEL_LIMIT
    &&& -VEL_LIMIT <= b.vel.y <= VEL_LIMIT
    &&& 1 <= b.mass <= MASS_LIMIT
    &&& 1 <= b.radius
    &&& b.trail@.len() == TRAIL_LEN
}

/// Builds a body at `(x, y)` with velocity `(dx, dy)`, the given mass,
/// radius and color tag, and a trail filled with the starting position.
pub fn initialize_object(x: i64, y: i64, dx: i64, dy: i64, mass: u128, radius: u32, color: u32) -> (b:
    Body)
    requires
        -POS_LIMIT <= x <= POS_LIMIT,
        -POS_LIMIT <= y <= POS_LIMIT,
        -VEL_LIMIT <= dx <= VEL_LIMIT,
        -VEL_LIMIT <= dy <= VEL_LIMIT,
        1 <= mass <= MASS_LIMIT,
        1 <= radius,
    ensures
        b.pos == (Vec2i { x, y }),
        b.vel == (Vec2i { x: dx, y: dy }),
        b.mass == mass,
        b.radius == radius,
        b.color == color,
        b.trail@.len() == TRAIL_LEN,
        forall|k: int| 0 <= k < TRAIL_LEN ==> b.trail@[k] == (Vec2i { x, y }),
        wf_body(b),
{
    let mut trail: Vec<Vec2i> = Vec::new();
    let mut k: usize = 0;
    while k < TRAIL_LEN
        invariant
            k <= TRAIL_LEN,
            trail@.len() == k,
            forall|t: int| 0 <= t < k ==> trail@[t] == (Vec2i { x, y }),
        decreases TRAIL_LEN - k,
    {
        trail.push(Vec2i { x, y });
        k += 1;
    }
    Body {
        pos: Vec2i { x, y },
        vel: Vec2i { x: dx, y: dy },
        mass,
        radius,
        color,
        trail,
    }
}

} // verus!
