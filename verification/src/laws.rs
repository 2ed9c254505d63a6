//! The laws the engine obeys, stated over the same spec functions its
//! contracts use and proved once and for all.

use vstd::prelude::*;
use vstd::arithmetic::div_mod::{
    lemma_div_denominator, lemma_div_pos_is_pos, lemma_fundamental_div_mod, lemma_mod_bound,
};
use crate::body::{Body, Vec2i, wf_body, TRAIL_LEN};
use crate::engine::{
    kick_mag, kick_on_x, kick_on_y, kick_signed, pair_dist, pair_dist2, KICK_DEN, KICK_NUM,
};
use crate::math::lemma_sqrt_floor_bounds;
use crate::store::{body_stepped, body_trail_advanced, net_kick_x, net_kick_y, stepped, trails_advanced};
use vstd::arithmetic::mul::lemma_mul_is_distributive_add;

verus! {

/// Rounding analysis of one pair along one axis: the two mass-weighted kick
/// magnitudes agree up to strictly less than one velocity unit per body.
proof fn lemma_cross_momentum(ma: int, mb: int, a: int, dist: int)
    requires
        1 <= ma,
        1 <= mb,
        0 <= a <= dist,
        1 <= dist,
    ensures
        -ma < ma * kick_mag(mb, a, dist) - mb * kick_mag(ma, a, dist) < mb,
{
    let d3 = dist * dist * dist;
    let x = d3 * (KICK_DEN as int);
    let na = KICK_NUM * ma * a;
    let nb = KICK_NUM * mb * a;
    assert(0 < dist * dist * dist && 0 <= KICK_NUM * ma * a && 0 <= KICK_NUM * mb * a
        && 0 < dist * dist * dist * (KICK_DEN as int)) by (nonlinear_arith)
        requires 1 <= dist, 1 <= ma, 1 <= mb, 0 <= a;
    lemma_div_denominator(na, d3, KICK_DEN as int);
    lemma_div_denominator(nb, d3, KICK_DEN as int);
    assert(kick_mag(mb, a, dist) == nb / x);
    assert(kick_mag(ma, a, dist) == na / x);
    let qa = na / x;
    let qb = nb / x;
    let ra = na % x;
    let rb = nb % x;
    lemma_fundamental_div_mod(na, x);
    lemma_fundamental_div_mod(nb, x);
    lemma_mod_bound(na, x);
    lemma_mod_bound(nb, x);
    // ma * nb == mb * na, so x * (ma*qb - mb*qa) == mb*ra - ma*rb.
    assert(ma * nb == mb * na) by (nonlinear_arith)
        requires na == KICK_NUM * ma * a, nb == KICK_NUM * mb * a;
    assert(x * (ma * qb - mb * qa) == mb * ra - ma * rb) by (nonlinear_arith)
        requires na == x * qa + ra, nb == x * qb + rb, ma * nb == mb * na;
    assert(-(ma * x) < mb * ra - ma * rb && mb * ra - ma * rb < mb * x) by (nonlinear_arith)
        requires 0 <= ra < x, 0 <= rb < x, 1 <= ma, 1 <= mb;
    assert(-ma < ma * qb - mb * qa && ma * qb - mb * qa < mb) by (nonlinear_arith)
        requires
            x * (ma * qb - mb * qa) == mb * ra - ma * rb,
            -(ma * x) < mb * ra - ma * rb < mb * x,
            0 < x;
}

/// Newton's third law at the pair level: the kicks two bodies give each
/// other point in opposite directions along each axis, and the momentum the
/// pair exchanges cancels up to the fixed-point rounding of the two kicks —
/// strictly less than one velocity unit per body, weighted by mass. The
/// engine applies each pair's kicks exactly once per body, so per step the
/// total impulse nets to zero up to that rounding.
pub proof fn lemma_pair_kick_symmetry(a: Body, b: Body)
    requires
        wf_body(a),
        wf_body(b),
    ensures
        kick_on_x(a, b) * kick_on_x(b, a) <= 0,
        kick_on_y(a, b) * kick_on_y(b, a) <= 0,
        -(a.mass + b.mass) < a.mass * kick_on_x(a, b) + b.mass * kick_on_x(b, a) < a.mass
            + b.mass,
        -(a.mass + b.mass) < a.mass * kick_on_y(a, b) + b.mass * kick_on_y(b, a) < a.mass
            + b.mass,
{
    let ux = b.pos.x - a.pos.x;
    let uy = b.pos.y - a.pos.y;
    assert(pair_dist2(b, a) == pair_dist2(a, b)) by (nonlinear_arith);
    let d2 = pair_dist2(a, b);
    if d2 == 0 {
    } else {
        let dist = pair_dist(a, b);
        assert(pair_dist(b, a) == dist);
        assert(0 <= ux * ux && 0 <= uy * uy) by (nonlinear_arith);
        lemma_sqrt_floor_bounds(d2);
        assert(1 <= dist && -dist <= ux <= dist && -dist <= uy <= dist) by (nonlinear_arith)
            requires
                ux * ux + uy * uy == d2,
                0 <= ux * ux,
                0 <= uy * uy,
                1 <= d2,
                0 <= dist,
                dist * dist <= d2 < (dist + 1) * (dist + 1);
        lemma_axis_symmetry(a.mass as int, b.mass as int, ux, dist);
        lemma_axis_symmetry(a.mass as int, b.mass as int, uy, dist);
    }
}

/// One axis of `lemma_pair_kick_symmetry`, over the signed separation `u`
/// seen from the first body.
proof fn lemma_axis_symmetry(ma: int, mb: int, u: int, dist: int)
    requires
        1 <= ma,
        1 <= mb,
        1 <= dist,
        -dist <= u <= dist,
    ensures
        kick_signed(mb, u, dist) * kick_signed(ma, -u, dist) <= 0,
        -(ma + mb) < ma * kick_signed(mb, u, dist) + mb * kick_signed(ma, -u, dist) < ma + mb,
{
    let au = if u >= 0 { u } else { -u };
    lemma_cross_momentum(ma, mb, au, dist);
    let kb = kick_mag(mb, au, dist);
    let ka = kick_mag(ma, au, dist);
    lemma_kick_mag_nonneg(mb, au, dist);
    lemma_kick_mag_nonneg(ma, au, dist);
    if u == 0 {
        lemma_kick_mag_zero(mb, dist);
        lemma_kick_mag_zero(ma, dist);
    } else if u > 0 {
        assert(kick_signed(mb, u, dist) == kb);
        assert(kick_signed(ma, -u, dist) == -ka);
        assert(kb * (-ka) <= 0) by (nonlinear_arith)
            requires 0 <= kb, 0 <= ka;
        assert(ma * (-ka) == -(ma * ka) && mb * (-ka) == -(mb * ka)) by (nonlinear_arith);
    } else {
        assert(kick_signed(mb, u, dist) == -kb);
        assert(kick_signed(ma, -u, dist) == ka);
        assert((-kb) * ka <= 0) by (nonlinear_arith)
            requires 0 <= kb, 0 <= ka;
        assert(ma * (-kb) == -(ma * kb) && mb * (-kb) == -(mb * kb)) by (nonlinear_arith);
    }
}

proof fn lemma_kick_mag_nonneg(m: int, a: int, dist: int)
    requires
        0 <= m,
        0 <= a,
        1 <= dist,
    ensures
        0 <= kick_mag(m, a, dist),
{
    let d3 = dist * dist * dist;
    assert(0 < dist * dist * dist && 0 <= KICK_NUM * m * a) by (nonlinear_arith)
        requires 1 <= dist, 0 <= m, 0 <= a;
    lemma_div_pos_is_pos(KICK_NUM * m * a, d3);
    lemma_div_pos_is_pos((KICK_NUM * m * a) / d3, KICK_DEN as int);
}

proof fn lemma_kick_mag_zero(m: int, dist: int)
    requires
        1 <= dist,
    ensures
        kick_mag(m, 0, dist) == 0,
{
    let d3 = dist * dist * dist;
    assert(0 < dist * dist * dist) by (nonlinear_arith)
        requires 1 <= dist;
    assert(KICK_NUM * m * 0 == 0) by (nonlinear_arith);
    assert(0int / d3 == 0);
    assert(0int / (KICK_DEN as int) == 0);
}

/// Zero-distance guard: a pair at identical coordinates exerts no force at
/// all, so no step can turn coincident bodies into unbounded velocities.
pub proof fn lemma_zero_distance_pair(a: Body, b: Body)
    requires
        a.pos == b.pos,
    ensures
        kick_on_x(a, b) == 0,
        kick_on_y(a, b) == 0,
{
    assert(pair_dist2(a, b) == 0);
}

/// Trail invariant: advancing the recorder keeps each trail's length, makes
/// its last entry the body's current position, and shifts the older entries
/// down unchanged, oldest first.
pub proof fn lemma_trail_invariant(pre: Seq<Body>, post: Seq<Body>, i: int)
    requires
        trails_advanced(pre, post),
        0 <= i < pre.len(),
        wf_body(pre[i]),
    ensures
        post[i].trail@.len() == pre[i].trail@.len(),
        post[i].trail@.len() == TRAIL_LEN,
        post[i].trail@.last() == post[i].pos,
        forall|k: int| 0 <= k < TRAIL_LEN - 1 ==> post[i].trail@[k] == pre[i].trail@[k + 1],
{
    assert(body_trail_advanced(pre, post, i));
}

/// Total momentum (mass times velocity) of the bodies below `k`, x part.
pub open spec fn momentum_x(bs: Seq<Body>, k: int) -> int
    decreases k,
{
    if k <= 0 {
        0
    } else {
        momentum_x(bs, k - 1) + bs[k - 1].mass * bs[k - 1].vel.x
    }
}

/// Total momentum of the bodies below `k`, y part.
pub open spec fn momentum_y(bs: Seq<Body>, k: int) -> int
    decreases k,
{
    if k <= 0 {
        0
    } else {
        momentum_y(bs, k - 1) + bs[k - 1].mass * bs[k - 1].vel.y
    }
}

/// Mass-weighted net kicks of the bodies below `k`, each summed over the
/// bodies below `upto`, x part.
spec fn wks_x(bs: Seq<Body>, k: int, upto: int) -> int
    decreases k,
{
    if k <= 0 {
        0
    } else {
        wks_x(bs, k - 1, upto) + bs[k - 1].mass * net_kick_x(bs, k - 1, upto)
    }
}

spec fn wks_y(bs: Seq<Body>, k: int, upto: int) -> int
    decreases k,
{
    if k <= 0 {
        0
    } else {
        wks_y(bs, k - 1, upto) + bs[k - 1].mass * net_kick_y(bs, k - 1, upto)
    }
}

/// Mass-weighted kicks given to the bodies below `k` by body `p`, x part.
spec fn onto_x(bs: Seq<Body>, p: int, k: int) -> int
    decreases k,
{
    if k <= 0 {
        0
    } else {
        onto_x(bs, p, k - 1) + bs[k - 1].mass * kick_on_x(bs[k - 1], bs[p])
    }
}

spec fn onto_y(bs: Seq<Body>, p: int, k: int) -> int
    decreases k,
{
    if k <= 0 {
        0
    } else {
        onto_y(bs, p, k - 1) + bs[k - 1].mass * kick_on_y(bs[k - 1], bs[p])
    }
}

/// Mass-weighted kicks body `p` receives from the bodies below `k`, x part.
spec fn from_x(bs: Seq<Body>, p: int, k: int) -> int
    decreases k,
{
    if k <= 0 {
        0
    } else {
        from_x(bs, p, k - 1) + bs[p].mass * kick_on_x(bs[p], bs[k - 1])
    }
}

spec fn from_y(bs: Seq<Body>, p: int, k: int) -> int
    decreases k,
{
    if k <= 0 {
        0
    } else {
        from_y(bs, p, k - 1) + bs[p].mass * kick_on_y(bs[p], bs[k - 1])
    }
}

/// Widening the kick range from `p` to `p + 1` adds exactly the kicks of
/// body `p` onto the bodies below `k`.
proof fn lemma_wks_extend(bs: Seq<Body>, p: int, k: int)
    requires
        0 <= k <= p,
    ensures
        wks_x(bs, k, p + 1) == wks_x(bs, k, p) + onto_x(bs, p, k),
        wks_y(bs, k, p + 1) == wks_y(bs, k, p) + onto_y(bs, p, k),
    decreases k,
{
    if k > 0 {
        lemma_wks_extend(bs, p, k - 1);
        let m = bs[k - 1].mass as int;
        assert(net_kick_x(bs, k - 1, p + 1) == net_kick_x(bs, k - 1, p) + kick_on_x(
            bs[k - 1],
            bs[p],
        ));
        assert(net_kick_y(bs, k - 1, p + 1) == net_kick_y(bs, k - 1, p) + kick_on_y(
            bs[k - 1],
            bs[p],
        ));
        lemma_mul_is_distributive_add(m, net_kick_x(bs, k - 1, p), kick_on_x(bs[k - 1], bs[p]));
        lemma_mul_is_distributive_add(m, net_kick_y(bs, k - 1, p), kick_on_y(bs[k - 1], bs[p]));
    }
}

/// The mass-weighted net kick on body `p` from the bodies below `k` is the
/// `from` sum.
proof fn lemma_from_sum(bs: Seq<Body>, p: int, k: int)
    requires
        0 <= k <= p,
    ensures
        bs[p].mass * net_kick_x(bs, p, k) == from_x(bs, p, k),
        bs[p].mass * net_kick_y(bs, p, k) == from_y(bs, p, k),
    decreases k,
{
    let m = bs[p].mass as int;
    if k <= 0 {
        assert(m * 0 == 0) by (nonlinear_arith);
    } else {
        lemma_from_sum(bs, p, k - 1);
        lemma_mul_is_distributive_add(m, net_kick_x(bs, p, k - 1), kick_on_x(bs[p], bs[k - 1]));
        lemma_mul_is_distributive_add(m, net_kick_y(bs, p, k - 1), kick_on_y(bs[p], bs[k - 1]));
    }
}

/// Total mass of the bodies below `k`, in kilograms.
pub open spec fn mass_sum(bs: Seq<Body>, k: int) -> int
    decreases k,
{
    if k <= 0 {
        0
    } else {
        mass_sum(bs, k - 1) + bs[k - 1].mass
    }
}

/// The momentum body `p` exchanges with the bodies below `k` nets to less
/// than one velocity unit per kilogram of each pair.
proof fn lemma_cross_bound(bs: Seq<Body>, p: int, k: int)
    requires
        forall|i: int| 0 <= i < bs.len() ==> wf_body(#[trigger] bs[i]),
        0 <= k <= p < bs.len(),
    ensures
        -(mass_sum(bs, k) + k * bs[p].mass) <= onto_x(bs, p, k) + from_x(bs, p, k) <= mass_sum(
            bs,
            k,
        ) + k * bs[p].mass,
        -(mass_sum(bs, k) + k * bs[p].mass) <= onto_y(bs, p, k) + from_y(bs, p, k) <= mass_sum(
            bs,
            k,
        ) + k * bs[p].mass,
    decreases k,
{
    if k > 0 {
        lemma_cross_bound(bs, p, k - 1);
        lemma_pair_kick_symmetry(bs[k - 1], bs[p]);
        assert((k - 1) * bs[p].mass + bs[p].mass == k * bs[p].mass) by (nonlinear_arith);
    }
}

/// The total mass-weighted net kick of one whole sweep stays below one
/// velocity unit per kilogram of each unordered pair: `(p - 1)` times the
/// total mass, per axis.
proof fn lemma_wks_bound(bs: Seq<Body>, p: int)
    requires
        forall|i: int| 0 <= i < bs.len() ==> wf_body(#[trigger] bs[i]),
        0 <= p <= bs.len(),
    ensures
        -((p - 1) * mass_sum(bs, p)) <= wks_x(bs, p, p) <= (p - 1) * mass_sum(bs, p),
        -((p - 1) * mass_sum(bs, p)) <= wks_y(bs, p, p) <= (p - 1) * mass_sum(bs, p),
    decreases p,
{
    if p <= 0 {
        assert((p - 1) * mass_sum(bs, p) == 0) by (nonlinear_arith)
            requires mass_sum(bs, p) == 0;
    } else {
        let q = p - 1;
        lemma_wks_bound(bs, q);
        lemma_wks_extend(bs, q, q);
        lemma_from_sum(bs, q, q);
        lemma_cross_bound(bs, q, q);
        assert(net_kick_x(bs, q, p) == net_kick_x(bs, q, q));
        assert(net_kick_y(bs, q, p) == net_kick_y(bs, q, q));
        assert(wks_x(bs, p, p) == wks_x(bs, q, p) + bs[q].mass * net_kick_x(bs, q, p));
        assert(wks_y(bs, p, p) == wks_y(bs, q, p) + bs[q].mass * net_kick_y(bs, q, p));
        // (q - 1) * mass_sum(q) + (mass_sum(q) + q * m_q) == (p - 1) * mass_sum(p)
        assert((q - 1) * mass_sum(bs, q) + mass_sum(bs, q) + q * bs[q].mass == (p - 1) * mass_sum(
            bs,
            p,
        )) by (nonlinear_arith)
            requires p == q + 1, mass_sum(bs, p) == mass_sum(bs, q) + bs[q].mass;
    }
}

/// One step changes the partial momenta by exactly the mass-weighted net
/// kicks of the sweep.
proof fn lemma_momentum_diff(pre: Seq<Body>, post: Seq<Body>, k: int)
    requires
        stepped(pre, post),
        0 <= k <= pre.len(),
    ensures
        momentum_x(post, k) - momentum_x(pre, k) == wks_x(pre, k, pre.len() as int),
        momentum_y(post, k) - momentum_y(pre, k) == wks_y(pre, k, pre.len() as int),
    decreases k,
{
    if k > 0 {
        lemma_momentum_diff(pre, post, k - 1);
        assert(body_stepped(pre, post, k - 1));
        let m = pre[k - 1].mass as int;
        lemma_mul_is_distributive_add(
            m,
            pre[k - 1].vel.x as int,
            net_kick_x(pre, k - 1, pre.len() as int),
        );
        lemma_mul_is_distributive_add(
            m,
            pre[k - 1].vel.y as int,
            net_kick_y(pre, k - 1, pre.len() as int),
        );
    }
}

/// Momentum conservation up to rounding: over one step of `n` bodies, the
/// total momentum (mass times velocity summed over all bodies, in
/// kilogram-subpixels per step) moves along each axis by at most `n - 1`
/// times the total mass, because every pair's exchanged impulse cancels up
/// to strictly less than one velocity unit per body of the pair. In exact
/// rational arithmetic the change would be zero; the bound is purely the
/// rounding of the kicks.
pub proof fn lemma_momentum_conservation(pre: Seq<Body>, post: Seq<Body>)
    requires
        stepped(pre, post),
        forall|i: int| 0 <= i < pre.len() ==> wf_body(#[trigger] pre[i]),
    ensures
        -((pre.len() - 1) * mass_sum(pre, pre.len() as int)) <= momentum_x(
            post,
            pre.len() as int,
        ) - momentum_x(pre, pre.len() as int) <= (pre.len() - 1) * mass_sum(
            pre,
            pre.len() as int,
        ),
        -((pre.len() - 1) * mass_sum(pre, pre.len() as int)) <= momentum_y(
            post,
            pre.len() as int,
        ) - momentum_y(pre, pre.len() as int) <= (pre.len() - 1) * mass_sum(
            pre,
            pre.len() as int,
        ),
{
    lemma_momentum_diff(pre, post, pre.len() as int);
    lemma_wks_bound(pre, pre.len() as int);
}

/// Bodies `i` of the two states agree in every observable field.
pub open spec fn bodies_agree(p1: Seq<Body>, p2: Seq<Body>, i: int) -> bool {
    &&& p1[i].pos == p2[i].pos
    &&& p1[i].vel == p2[i].vel
    &&& p1[i].mass == p2[i].mass
    &&& p1[i].radius == p2[i].radius
    &&& p1[i].color == p2[i].color
    &&& p1[i].trail@ == p2[i].trail@
}

/// Determinism: the step relation pins every field of every body, so two
/// runs of a step from equal states agree exactly.
pub proof fn lemma_step_deterministic(pre: Seq<Body>, post1: Seq<Body>, post2: Seq<Body>)
    requires
        stepped(pre, post1),
        stepped(pre, post2),
    ensures
        forall|i: int| 0 <= i < pre.len() ==> #[trigger] bodies_agree(post1, post2, i),
{
    assert forall|i: int| 0 <= i < pre.len() implies #[trigger] bodies_agree(
        post1,
        post2,
        i,
    ) by {
        assert(body_stepped(pre, post1, i));
        assert(body_stepped(pre, post2, i));
        assert(post1[i].pos == (Vec2i { x: post1[i].pos.x, y: post1[i].pos.y }));
        assert(post2[i].pos == (Vec2i { x: post2[i].pos.x, y: post2[i].pos.y }));
        assert(post1[i].vel == (Vec2i { x: post1[i].vel.x, y: post1[i].vel.y }));
        assert(post2[i].vel == (Vec2i { x: post2[i].vel.x, y: post2[i].vel.y }));
    }
}

/// Determinism of the trail recorder, in the same sense.
pub proof fn lemma_trail_deterministic(pre: Seq<Body>, post1: Seq<Body>, post2: Seq<Body>)
    requires
        trails_advanced(pre, post1),
        trails_advanced(pre, post2),
    ensures
        forall|i: int| 0 <= i < pre.len() ==> #[trigger] bodies_agree(post1, post2, i),
{
    assert forall|i: int| 0 <= i < pre.len() implies #[trigger] bodies_agree(
        post1,
        post2,
        i,
    ) by {
        assert(body_trail_advanced(pre, post1, i));
        assert(body_trail_advanced(pre, post2, i));
    }
}

} // verus!
