//! The body store and the operations that drive it: the integration schemes
//! (explicit Euler now, the Runge-Kutta slot sharing the same sweep) and the
//! trail recorder.
//!
//! A step is two-phase: first the pairwise kicks of every other body are
//! accumulated per body, then every velocity and position is updated at
//! once, so no body ever sees a half-updated neighbour. If the new state of
//! any body would leave the fixed-point range the step reports an error and
//! leaves the whole store untouched, rather than go on with corrupted state.

use vstd::prelude::*;
use crate::body::{Body, Vec2i, wf_body, N_LIMIT, POS_LIMIT, TRAIL_LEN, VEL_LIMIT};
use crate::engine::{kick_on_x, kick_on_y, pair_kick, KICK_BOUND};

verus! {

/// The one failure a step can meet: some body's next velocity or position
/// would leave the representable range.
#[derive(Clone, Copy, PartialEq, Eq, Structural, Debug)]
pub enum SimError {
    StateOutOfRange,
}

/// Net velocity kick on body `i` from the bodies with index below `upto`
/// (skipping `i` itself), x component.
pub open spec fn net_kick_x(bs: Seq<Body>, i: int, upto: int) -> int
    decreases upto,
{
    if upto <= 0 {
        0
    } else {
        net_kick_x(bs, i, upto - 1) + if upto - 1 == i {
            0
        } else {
            kick_on_x(bs[i], bs[upto - 1])
        }
    }
}

/// Net velocity kick on body `i`, y component.
pub open spec fn net_kick_y(bs: Seq<Body>, i: int, upto: int) -> int
    decreases upto,
{
    if upto <= 0 {
        0
    } else {
        net_kick_y(bs, i, upto - 1) + if upto - 1 == i {
            0
        } else {
            kick_on_y(bs[i], bs[upto - 1])
        }
    }
}

/// Velocity of body `i` after one step: the old velocity plus the net kick
/// of all other bodies.
pub open spec fn new_vel_x(bs: Seq<Body>, i: int) -> int {
    bs[i].vel.x + net_kick_x(bs, i, bs.len() as int)
}

pub open spec fn new_vel_y(bs: Seq<Body>, i: int) -> int {
    bs[i].vel.y + net_kick_y(bs, i, bs.len() as int)
}

/// Position of body `i` after one step: the old position plus the new
/// velocity.
pub open spec fn new_pos_x(bs: Seq<Body>, i: int) -> int {
    bs[i].pos.x + new_vel_x(bs, i)
}

pub open spec fn new_pos_y(bs: Seq<Body>, i: int) -> int {
    bs[i].pos.y + new_vel_y(bs, i)
}

/// Body `i`'s next state stays inside the fixed-point limits.
pub open spec fn body_in_bounds(bs: Seq<Body>, i: int) -> bool {
    &&& -VEL_LIMIT <= new_vel_x(bs, i) <= VEL_LIMIT
    &&& -VEL_LIMIT <= new_vel_y(bs, i) <= VEL_LIMIT
    &&& -POS_LIMIT <= new_pos_x(bs, i) <= POS_LIMIT
    &&& -POS_LIMIT <= new_pos_y(bs, i) <= POS_LIMIT
}

/// Every body's next state stays inside the fixed-point limits: exactly the
/// condition under which a step succeeds.
pub open spec fn step_in_bounds(bs: Seq<Body>) -> bool {
    forall|i: int| 0 <= i < bs.len() ==> #[trigger] body_in_bounds(bs, i)
}

/// Body `i` of `post` is body `i` of `pre` advanced by one step; mass,
/// radius, color and trail are untouched.
pub open spec fn body_stepped(pre: Seq<Body>, post: Seq<Body>, i: int) -> bool {
    &&& post[i].vel.x == new_vel_x(pre, i)
    &&& post[i].vel.y == new_vel_y(pre, i)
    &&& post[i].pos.x == new_pos_x(pre, i)
    &&& post[i].pos.y == new_pos_y(pre, i)
    &&& post[i].mass == pre[i].mass
    &&& post[i].radius == pre[i].radius
    &&& post[i].color == pre[i].color
    &&& post[i].trail@ == pre[i].trail@
}

/// The whole store advanced by one step.
pub open spec fn stepped(pre: Seq<Body>, post: Seq<Body>) -> bool {
    &&& post.len() == pre.len()
    &&& forall|i: int| 0 <= i < pre.len() ==> #[trigger] body_stepped(pre, post, i)
}

/// Body `i` of `post` is body `i` of `pre` with the oldest trail entry
/// evicted and the current position appended; everything else untouched.
pub open spec fn body_trail_advanced(pre: Seq<Body>, post: Seq<Body>, i: int) -> bool {
    &&& post[i].pos == pre[i].pos
    &&& post[i].vel == pre[i].vel
    &&& post[i].mass == pre[i].mass
    &&& post[i].radius == pre[i].radius
    &&& post[i].color == pre[i].color
    &&& post[i].trail@ == pre[i].trail@.skip(1).push(pre[i].pos)
}

/// Every body's trail advanced by one entry.
pub open spec fn trails_advanced(pre: Seq<Body>, post: Seq<Body>) -> bool {
    &&& post.len() == pre.len()
    &&& forall|i: int| 0 <= i < pre.len() ==> #[trigger] body_trail_advanced(pre, post, i)
}

/// Owns the array of bodies; the engine mutates it step by step and a
/// renderer reads positions and trails from it between steps.
pub struct BodyStore {
    bodies: Vec<Body>,
}

impl View for BodyStore {
    type V = Seq<Body>;

    closed spec fn view(&self) -> Seq<Body> {
        self.bodies@
    }
}

impl BodyStore {
    /// The store's invariant: at most `N_LIMIT` bodies, each well-formed.
    pub open spec fn wf(self) -> bool {
        &&& self@.len() <= N_LIMIT
        &&& forall|i: int| 0 <= i < self@.len() ==> wf_body(#[trigger] self@[i])
    }

    /// An empty store.
    pub fn new() -> (s: Self)
        ensures
            s@.len() == 0,
            s.wf(),
    {
        BodyStore { bodies: Vec::new() }
    }

    /// Appends one body, created once at simulation start.
    pub fn add_body(&mut self, b: Body)
        requires
            old(self).wf(),
            old(self)@.len() < N_LIMIT,
            wf_body(b),
        ensures
            final(self)@ == old(self)@.push(b),
            final(self).wf(),
    {
        self.bodies.push(b);
    }

    /// Number of bodies held.
    pub fn len(&self) -> (n: usize)
        ensures
            n == self@.len(),
    {
        self.bodies.len()
    }

    /// Read access to one body, for the renderer and the tests.
    pub fn body(&self, i: usize) -> (b: &Body)
        requires
            i < self@.len(),
        ensures
            *b == self@[i as int],
    {
        &self.bodies[i]
    }

    /// One explicit-Euler step: accumulate every pairwise kick, then move
    /// every body. Succeeds exactly when every body's next state stays in
    /// range; on failure the store is untouched.
    pub fn eulers_method_update(&mut self) -> (r: Result<(), SimError>)
        requires
            old(self).wf(),
        ensures
            final(self).wf(),
            r is Ok <==> step_in_bounds(old(self)@),
            r is Ok ==> stepped(old(self)@, final(self)@),
            r is Err ==> final(self)@ == old(self)@,
    {
        self.step_once()
    }

    /// The Runge-Kutta slot of the engine, parameterized by the intended
    /// order of the scheme. It is plugged in behind the same signature as
    /// the Euler scheme and shares the pairwise force primitive; the sweep
    /// it performs today is the same first-order one for every `order`, the
    /// intermediate stages being a planned extension.
    pub fn rk4_update(&mut self, order: u8) -> (r: Result<(), SimError>)
        requires
            old(self).wf(),
        ensures
            final(self).wf(),
            r is Ok <==> step_in_bounds(old(self)@),
            r is Ok ==> stepped(old(self)@, final(self)@),
            r is Err ==> final(self)@ == old(self)@,
    {
        self.step_once()
    }

    /// Phase one of a step: for every body, the net kick of all other
    /// bodies, accumulated with the shared pairwise force primitive into
    /// one accumulator pair per body. Reads the store, changes nothing.
    fn calculate_forces(&self) -> (k: (Vec<i64>, Vec<i64>))
        requires
            self.wf(),
        ensures
            k.0@.len() == self@.len(),
            k.1@.len() == self@.len(),
            forall|t: int| 0 <= t < self@.len() ==> k.0@[t] == net_kick_x(
                self@,
                t,
                self@.len() as int,
            ),
            forall|t: int| 0 <= t < self@.len() ==> k.1@[t] == net_kick_y(
                self@,
                t,
                self@.len() as int,
            ),
            forall|t: int| 0 <= t < self@.len() ==> -(self@.len() * KICK_BOUND) <= #[trigger] k.0@[t]
                <= self@.len() * KICK_BOUND,
            forall|t: int| 0 <= t < self@.len() ==> -(self@.len() * KICK_BOUND) <= #[trigger] k.1@[t]
                <= self@.len() * KICK_BOUND,
    {
        let ghost pre = self.bodies@;
        let n = self.bodies.len();
        let mut kxs: Vec<i64> = Vec::new();
        let mut kys: Vec<i64> = Vec::new();
        let mut i: usize = 0;
        while i < n
            invariant
                i <= n,
                kxs@.len() == i,
                kys@.len() == i,
                forall|t: int| 0 <= t < i ==> kxs@[t] == net_kick_x(pre, t, n as int),
                forall|t: int| 0 <= t < i ==> kys@[t] == net_kick_y(pre, t, n as int),
                forall|t: int| 0 <= t < i ==> -(n as int) * KICK_BOUND <= #[trigger] kxs@[t]
                    <= (n as int) * KICK_BOUND,
                forall|t: int| 0 <= t < i ==> -(n as int) * KICK_BOUND <= #[trigger] kys@[t]
                    <= (n as int) * KICK_BOUND,
            decreases n - i,
        {
            let mut ax: i64 = 0;
            let mut ay: i64 = 0;
            let mut j: usize = 0;
            while j < n
                invariant
                    j <= n,
                    i < n,
                    ax == net_kick_x(pre, i as int, j as int),
                    ay == net_kick_y(pre, i as int, j as int),
                    -(j as int) * KICK_BOUND <= ax <= (j as int) * KICK_BOUND,
                    -(j as int) * KICK_BOUND <= ay <= (j as int) * KICK_BOUND,
                decreases n - j,
            {
                if j != i {
                    let k = pair_kick(&self.bodies[i], &self.bodies[j]);
                    ax = ax + k.0;
                    ay = ay + k.1;
                }
                j += 1;
            }
            kxs.push(ax);
            kys.push(ay);
            i += 1;
        }
        (kxs, kys)
    }

    /// The shared sweep: accumulate the forces, then check and apply.
    fn step_once(&mut self) -> (r: Result<(), SimError>)
        requires
            old(self).wf(),
        ensures
            final(self).wf(),
            r is Ok <==> step_in_bounds(old(self)@),
            r is Ok ==> stepped(old(self)@, final(self)@),
            r is Err ==> final(self)@ == old(self)@,
    {
        let ghost pre = self.bodies@;
        let n = self.bodies.len();
        let (kxs, kys) = self.calculate_forces();
        // Phase two, first half: would any body leave the range?
        let mut i: usize = 0;
        while i < n
            invariant
                i <= n,
                forall|t: int| 0 <= t < i ==> #[trigger] body_in_bounds(pre, t),
            decreases n - i,
        {
            let b = &self.bodies[i];
            let ndx = b.vel.x + kxs[i];
            let ndy = b.vel.y + kys[i];
            if ndx < -VEL_LIMIT || ndx > VEL_LIMIT || ndy < -VEL_LIMIT || ndy > VEL_LIMIT {
                proof {
                    assert(!body_in_bounds(pre, i as int));
                }
                return Err(SimError::StateOutOfRange);
            }
            let nx = b.pos.x + ndx;
            let ny = b.pos.y + ndy;
            if nx < -POS_LIMIT || nx > POS_LIMIT || ny < -POS_LIMIT || ny > POS_LIMIT {
                proof {
                    assert(!body_in_bounds(pre, i as int));
                }
                return Err(SimError::StateOutOfRange);
            }
            proof {
                assert(body_in_bounds(pre, i as int));
            }
            i += 1;
        }
        // Phase two, second half: move every body at once.
        let mut i: usize = 0;
        while i < n
            invariant
                i <= n,
                self.bodies@.len() == n,
                forall|t: int| 0 <= t < i ==> #[trigger] body_stepped(pre, self.bodies@, t),
                forall|t: int| i <= t < n ==> self.bodies@[t] == pre[t],
            decreases n - i,
        {
            let ghost cur = self.bodies@;
            let ndx = self.bodies[i].vel.x + kxs[i];
            let ndy = self.bodies[i].vel.y + kys[i];
            let nx = self.bodies[i].pos.x + ndx;
            let ny = self.bodies[i].pos.y + ndy;
            let bref = &mut self.bodies[i];
            bref.vel.x = ndx;
            bref.vel.y = ndy;
            bref.pos.x = nx;
            bref.pos.y = ny;
            proof {
                assert forall|t: int| 0 <= t < i + 1 implies #[trigger] body_stepped(
                    pre,
                    self.bodies@,
                    t,
                ) by {
                    if t < i {
                        assert(body_stepped(pre, cur, t));
                        assert(self.bodies@[t] == cur[t]);
                    } else {
                        assert(self.bodies@[t].vel.x == ndx);
                    }
                }
            }
            i += 1;
        }
        proof {
            assert forall|t: int| 0 <= t < n implies wf_body(#[trigger] self.bodies@[t]) by {
                assert(body_stepped(pre, self.bodies@, t));
                assert(body_in_bounds(pre, t));
                assert(wf_body(pre[t]));
            }
        }
        Ok(())
    }

    /// The trail recorder: once per step, after the position update, evict
    /// each body's oldest trail entry and append its current position, so
    /// the trail stays `TRAIL_LEN` long and ordered oldest first.
    pub fn trail_manager(&mut self)
        requires
            old(self).wf(),
        ensures
            final(self).wf(),
            trails_advanced(old(self)@, final(self)@),
    {
        let ghost pre = self.bodies@;
        let n = self.bodies.len();
        let mut i: usize = 0;
        while i < n
            invariant
                i <= n,
                self.bodies@.len() == n,
                forall|t: int| 0 <= t < i ==> #[trigger] body_trail_advanced(pre, self.bodies@, t),
                forall|t: int| i <= t < n ==> self.bodies@[t] == pre[t],
            decreases n - i,
        {
            let pos = self.bodies[i].pos;
            let mut t: Vec<Vec2i> = Vec::new();
            let mut k: usize = 1;
            while k < TRAIL_LEN
                invariant
                    1 <= k <= TRAIL_LEN,
                    i < n,
                    self.bodies@[i as int] == pre[i as int],
                    t@.len() == k - 1,
                    forall|u: int| 0 <= u < k - 1 ==> t@[u] == pre[i as int].trail@[u + 1],
                decreases TRAIL_LEN - k,
            {
                let v = self.bodies[i].trail[k];
                t.push(v);
                k += 1;
            }
            t.push(pos);
            proof {
                assert(t@ =~= pre[i as int].trail@.skip(1).push(pre[i as int].pos));
            }
            let ghost cur = self.bodies@;
            let bref = &mut self.bodies[i];
            bref.trail = t;
            proof {
                assert forall|u: int| 0 <= u < i + 1 implies #[trigger] body_trail_advanced(
                    pre,
                    self.bodies@,
                    u,
                ) by {
                    if u < i {
                        assert(body_trail_advanced(pre, cur, u));
                        assert(self.bodies@[u] == cur[u]);
                    } else {
                        assert(self.bodies@[u].trail == t);
                    }
                }
            }
            i += 1;
        }
        proof {
            assert forall|t: int| 0 <= t < n implies wf_body(#[trigger] self.bodies@[t]) by {
                assert(body_trail_advanced(pre, self.bodies@, t));
                assert(wf_body(pre[t]));
            }
        }
    }
}

} // verus!
