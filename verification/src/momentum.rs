//! The total momentum of a store and how an integration step changes it.

use vstd::prelude::*;
use crate::body::{total_mass, Body};
use crate::frame::{all_can_integrate, direct_accelerations, integrated};
use crate::gravity::{direct_gravity_sum, lemma_newton_bounded, lemma_newton_mutual, newton};
use crate::integrator::can_integrate;
use crate::vector::{Vec2, Vector};

verus! {

/// The x component of the total momentum: the sum of mass times velocity.
pub open spec fn momentum_x(bodies: Seq<Body>) -> int
    decreases bodies.len(),
{
    if bodies.len() == 0 {
        0
    } else {
        momentum_x(bodies.drop_last()) + bodies.last().mass * bodies.last().velocity.x
    }
}

/// The y component of the total momentum.
pub open spec fn momentum_y(bodies: Seq<Body>) -> int
    decreases bodies.len(),
{
    if bodies.len() == 0 {
        0
    } else {
        momentum_y(bodies.drop_last()) + bodies.last().mass * bodies.last().velocity.y
    }
}

/// The x component of the net force: the sum of mass times acceleration.
pub open spec fn net_force_x(bodies: Seq<Body>, accelerations: Seq<Vec2>) -> int
    decreases bodies.len(),
{
    if bodies.len() == 0 {
        0
    } else {
        net_force_x(bodies.drop_last(), accelerations.drop_last()) + bodies.last().mass
            * accelerations.last().x
    }
}

/// The y component of the net force.
pub open spec fn net_force_y(bodies: Seq<Body>, accelerations: Seq<Vec2>) -> int
    decreases bodies.len(),
{
    if bodies.len() == 0 {
        0
    } else {
        net_force_y(bodies.drop_last(), accelerations.drop_last()) + bodies.last().mass
            * accelerations.last().y
    }
}

/// Where every body keeps its mass and gains its acceleration times `dt`
/// in velocity, the total momentum gains the net force times `dt`.
proof fn lemma_momentum_gain(before: Seq<Body>, after: Seq<Body>, accelerations: Seq<Vec2>, dt: int)
    requires
        after.len() == before.len(),
        accelerations.len() == before.len(),
        forall|i: int|
            0 <= i < before.len() ==> (#[trigger] after[i]).mass == before[i].mass
                && after[i].velocity.x == before[i].velocity.x + accelerations[i].x * dt
                && after[i].velocity.y == before[i].velocity.y + accelerations[i].y * dt,
    ensures
        momentum_x(after) == momentum_x(before) + net_force_x(before, accelerations) * dt,
        momentum_y(after) == momentum_y(before) + net_force_y(before, accelerations) * dt,
    decreases before.len(),
{
    if before.len() > 0 {
        lemma_momentum_gain(
            before.drop_last(),
            after.drop_last(),
            accelerations.drop_last(),
            dt,
        );
        let n = before.len() - 1;
        let m = before[n].mass as int;
        let (vx, vy) = (before[n].velocity.x as int, before[n].velocity.y as int);
        let (ax, ay) = (accelerations[n].x as int, accelerations[n].y as int);
        let (fx, fy) = (
            net_force_x(before.drop_last(), accelerations.drop_last()),
            net_force_y(before.drop_last(), accelerations.drop_last()),
        );
        assert(after[n].mass == m);
        assert(m * (vx + ax * dt) == m * vx + (m * ax) * dt && (fx + m * ax) * dt == fx * dt + (m
            * ax) * dt) by (nonlinear_arith);
        assert(m * (vy + ay * dt) == m * vy + (m * ay) * dt && (fy + m * ay) * dt == fy * dt + (m
            * ay) * dt) by (nonlinear_arith);
    }
}

/// Over one integration step the total momentum changes by the net force
/// times `dt`, exactly.  Where the net force is zero, as it is where the
/// accelerations are those of bodies that pull each other with equal and
/// opposite forces, the total momentum is conserved.
pub proof fn lemma_momentum_step(bodies: Seq<Body>, accelerations: Seq<Vec2>, dt: int)
    requires
        accelerations.len() == bodies.len(),
        all_can_integrate(bodies, accelerations, dt, bodies.len() as int),
    ensures
        momentum_x(integrated(bodies, accelerations, dt)) == momentum_x(bodies) + net_force_x(
            bodies,
            accelerations,
        ) * dt,
        momentum_y(integrated(bodies, accelerations, dt)) == momentum_y(bodies) + net_force_y(
            bodies,
            accelerations,
        ) * dt,
        net_force_x(bodies, accelerations) == 0 ==> momentum_x(
            integrated(bodies, accelerations, dt),
        ) == momentum_x(bodies),
        net_force_y(bodies, accelerations) == 0 ==> momentum_y(
            integrated(bodies, accelerations, dt),
        ) == momentum_y(bodies),
{
    let after = integrated(bodies, accelerations, dt);
    assert forall|i: int| 0 <= i < bodies.len() implies (#[trigger] after[i]).mass
        == bodies[i].mass && after[i].velocity.x == bodies[i].velocity.x + accelerations[i].x * dt
        && after[i].velocity.y == bodies[i].velocity.y + accelerations[i].y * dt by {
        assert(can_integrate(bodies[i], accelerations[i]@, dt));
    }
    lemma_momentum_gain(bodies, after, accelerations, dt);
    assert(0 * dt == 0) by (nonlinear_arith);
}

/// Where no component of an acceleration exceeds `bound`, no component of
/// the net force exceeds the total mass times `bound`.
pub proof fn lemma_net_force_bounded(bodies: Seq<Body>, accelerations: Seq<Vec2>, bound: int)
    requires
        accelerations.len() == bodies.len(),
        forall|i: int| 0 <= i < bodies.len() ==> (#[trigger] accelerations[i])@.within(bound),
    ensures
        total_mass(bodies) >= 0,
        -total_mass(bodies) * bound <= net_force_x(bodies, accelerations) <= total_mass(bodies)
            * bound,
        -total_mass(bodies) * bound <= net_force_y(bodies, accelerations) <= total_mass(bodies)
            * bound,
    decreases bodies.len(),
{
    if bodies.len() == 0 {
        assert(0 * bound == 0) by (nonlinear_arith);
    } else {
        let rest = bodies.drop_last();
        let accs = accelerations.drop_last();
        assert forall|i: int| 0 <= i < rest.len() implies (#[trigger] accs[i])@.within(bound) by {
            assert(accs[i] == accelerations[i]);
        }
        lemma_net_force_bounded(rest, accs, bound);
        let m = bodies.last().mass as int;
        let a = accelerations.last();
        assert(a == accelerations[bodies.len() - 1]);
        let t = total_mass(rest);
        assert(-m * bound <= m * a.x <= m * bound && -m * bound <= m * a.y <= m * bound && (t
            + m) * bound == t * bound + m * bound && -(t + m) * bound == -t * bound + -m * bound)
            by (nonlinear_arith)
            requires
                m >= 0,
                -bound <= a.x <= bound,
                -bound <= a.y <= bound,
        ;
    }
}

/// Two bodies of equal mass that pull each other as Newton's law says:
/// the net force is zero, and one integration step conserves the total
/// momentum.
pub proof fn lemma_equal_pair_conserves_momentum(bodies: Seq<Body>, g: int, dt: int)
    requires
        bodies.len() == 2,
        bodies[0].id != bodies[1].id,
        bodies[0].mass == bodies[1].mass,
        0 <= g,
        g * bodies[0].mass <= i64::MAX,
        all_can_integrate(bodies, direct_accelerations(bodies, g), dt, 2),
    ensures
        net_force_x(bodies, direct_accelerations(bodies, g)) == 0,
        net_force_y(bodies, direct_accelerations(bodies, g)) == 0,
        momentum_x(integrated(bodies, direct_accelerations(bodies, g), dt)) == momentum_x(bodies),
        momentum_y(integrated(bodies, direct_accelerations(bodies, g), dt)) == momentum_y(bodies),
{
    let accs = direct_accelerations(bodies, g);
    let (a, b) = (bodies[0], bodies[1]);
    let m = a.mass as int;
    let first = bodies.drop_last();
    assert(first.len() == 1 && first.last() == a && first.drop_last().len() == 0);
    assert(bodies.last() == b);
    let on_a = newton(a.position@, b.position@, m, g);
    let on_b = newton(b.position@, a.position@, m, g);
    lemma_newton_mutual(a.position@, b.position@, m, g);
    lemma_newton_bounded(a.position@, b.position@, m, g);
    lemma_newton_bounded(b.position@, a.position@, m, g);
    assert(direct_gravity_sum(a, first.drop_last(), g) == Vector::zero());
    assert(direct_gravity_sum(b, first.drop_last(), g) == Vector::zero());
    assert(direct_gravity_sum(a, first, g) == Vector::zero());
    assert(direct_gravity_sum(b, first, g) == on_b);
    assert(direct_gravity_sum(a, bodies, g) == on_a);
    assert(direct_gravity_sum(b, bodies, g) == on_b);
    assert(accs[0].x == on_a.x && accs[0].y == on_a.y);
    assert(accs[1].x == on_b.x && accs[1].y == on_b.y);
    let accs1 = accs.drop_last();
    assert(accs1.len() == 1 && accs1.last() == accs[0] && accs.last() == accs[1]);
    assert(net_force_x(first.drop_last(), accs1.drop_last()) == 0);
    assert(net_force_y(first.drop_last(), accs1.drop_last()) == 0);
    assert(net_force_x(first, accs1) == m * on_a.x);
    assert(net_force_y(first, accs1) == m * on_a.y);
    assert(net_force_x(bodies, accs) == m * on_a.x + m * on_b.x);
    assert(net_force_y(bodies, accs) == m * on_a.y + m * on_b.y);
    assert(m * on_a.x + m * on_b.x == 0 && m * on_a.y + m * on_b.y == 0) by (nonlinear_arith)
        requires
            on_a.x == -on_b.x,
            on_a.y == -on_b.y,
    ;
    lemma_momentum_step(bodies, accs, dt);
}

} // verus!
