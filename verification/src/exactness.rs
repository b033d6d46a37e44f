//! When the tree gives the same acceleration as the direct sum.

use vstd::prelude::*;
use vstd::arithmetic::div_mod::lemma_div_multiples_vanish;
use crate::body::{all_valid, lemma_total_mass_nonnegative, moment_x, moment_y, total_mass, Body, MASS_LIMIT};
use crate::config::Config;
use crate::gravity::{approx_gravity, direct_gravity_sum, far_enough, lemma_newton_coincident, newton};
use crate::region::{all_inside, Quadrant, Region};
use crate::summary::Summary;
use crate::tree::{build, lemma_select_placed, lemma_select_valid, select};
use crate::vector::{dist_sq, Vec2, Vector};

verus! {

/// The number of bodies at a position.
pub open spec fn count_at(bodies: Seq<Body>, p: Vec2) -> nat
    decreases bodies.len(),
{
    if bodies.len() == 0 {
        0
    } else if bodies.last().position == p {
        count_at(bodies.drop_last(), p) + 1
    } else {
        count_at(bodies.drop_last(), p)
    }
}

/// No two bodies share a position, unless it is `p`.
pub open spec fn coincide_only_at(bodies: Seq<Body>, p: Vec2) -> bool {
    forall|r: Vec2| r != p ==> #[trigger] count_at(bodies, r) <= 1
}

/// The four selections of a sequence share out its bodies at any position.
pub proof fn lemma_select_count(bodies: Seq<Body>, region: Region, p: Vec2)
    ensures
        count_at(select(bodies, region, Quadrant::NW), p) + count_at(
            select(bodies, region, Quadrant::NE),
            p,
        ) + count_at(select(bodies, region, Quadrant::SW), p) + count_at(
            select(bodies, region, Quadrant::SE),
            p,
        ) == count_at(bodies, p),
    decreases bodies.len(),
{
    if bodies.len() > 0 {
        let rest = bodies.drop_last();
        let b = bodies.last();
        lemma_select_count(rest, region, p);
        assert(select(rest, region, Quadrant::NW).push(b).drop_last() =~= select(
            rest,
            region,
            Quadrant::NW,
        ));
        assert(select(rest, region, Quadrant::NE).push(b).drop_last() =~= select(
            rest,
            region,
            Quadrant::NE,
        ));
        assert(select(rest, region, Quadrant::SW).push(b).drop_last() =~= select(
            rest,
            region,
            Quadrant::SW,
        ));
        assert(select(rest, region, Quadrant::SE).push(b).drop_last() =~= select(
            rest,
            region,
            Quadrant::SE,
        ));
    }
}

/// The direct sum over a sequence is the sum of the direct sums over its
/// four selections.
pub proof fn lemma_select_direct(subject: Body, bodies: Seq<Body>, region: Region, g: int)
    ensures
        direct_gravity_sum(subject, bodies, g) == direct_gravity_sum(
            subject,
            select(bodies, region, Quadrant::NW),
            g,
        ).plus(direct_gravity_sum(subject, select(bodies, region, Quadrant::NE), g)).plus(
            direct_gravity_sum(subject, select(bodies, region, Quadrant::SW), g),
        ).plus(direct_gravity_sum(subject, select(bodies, region, Quadrant::SE), g)),
    decreases bodies.len(),
{
    if bodies.len() > 0 {
        let rest = bodies.drop_last();
        let b = bodies.last();
        lemma_select_direct(subject, rest, region, g);
        assert(select(rest, region, Quadrant::NW).push(b).drop_last() =~= select(
            rest,
            region,
            Quadrant::NW,
        ));
        assert(select(rest, region, Quadrant::NE).push(b).drop_last() =~= select(
            rest,
            region,
            Quadrant::NE,
        ));
        assert(select(rest, region, Quadrant::SW).push(b).drop_last() =~= select(
            rest,
            region,
            Quadrant::SW,
        ));
        assert(select(rest, region, Quadrant::SE).push(b).drop_last() =~= select(
            rest,
            region,
            Quadrant::SE,
        ));
    }
}

/// Bodies of a region go to the quadrants that contain them, and a
/// selection has no more bodies at a position than the whole.
pub proof fn lemma_select_inside(bodies: Seq<Body>, region: Region, q: Quadrant, p: Vec2)
    requires
        region.valid(),
        all_inside(bodies, region),
        coincide_only_at(bodies, p),
    ensures
        all_inside(select(bodies, region, q), region.spec_child(q)),
        coincide_only_at(select(bodies, region, q), p),
{
    lemma_select_placed(bodies, region, q);
    let s = select(bodies, region, q);
    assert forall|r: Vec2| r != p implies #[trigger] count_at(s, r) <= 1 by {
        lemma_select_count(bodies, region, r);
        assert(count_at(bodies, r) <= 1);
    }
}

/// Where every body is at the position `p`: the bodies at `p` are all of
/// them, their centre of gravity is `p`, and none of them pulls a body
/// that is at `p` itself.
pub proof fn lemma_all_at(subject: Body, bodies: Seq<Body>, p: Vec2, g: int)
    requires
        forall|i: int| 0 <= i < bodies.len() ==> (#[trigger] bodies[i]).position == p,
    ensures
        count_at(bodies, p) == bodies.len(),
        moment_x(bodies) == total_mass(bodies) * p.x,
        moment_y(bodies) == total_mass(bodies) * p.y,
        subject.position == p ==> direct_gravity_sum(subject, bodies, g) == Vector::zero(),
    decreases bodies.len(),
{
    if bodies.len() == 0 {
        assert(0 * p.x == 0 && 0 * p.y == 0) by (nonlinear_arith);
    } else {
        let rest = bodies.drop_last();
        let b = bodies.last();
        assert(b == bodies[bodies.len() - 1]);
        assert forall|i: int| 0 <= i < rest.len() implies (#[trigger] rest[i]).position == p by {
            assert(rest[i] == bodies[i]);
        }
        lemma_all_at(subject, rest, p, g);
        let t = total_mass(rest);
        let m = b.mass as int;
        assert((t + m) * p.x == t * p.x + m * p.x && (t + m) * p.y == t * p.y + m * p.y)
            by (nonlinear_arith);
        lemma_newton_coincident(p@, m, g);
    }
}

/// With theta zero no node is far enough, and none is at distance zero.
pub proof fn lemma_never_far(size: int, d2: int, config: Config)
    requires
        config.theta_num == 0 || d2 == 0,
    ensures
        !far_enough(size, d2, config),
{
    let sd = size * config.theta_den;
    let nn = config.theta_num * config.theta_num;
    assert(sd * sd >= 0) by (nonlinear_arith);
    assert(d2 * nn == 0) by (nonlinear_arith)
        requires
            nn == 0 || d2 == 0,
    ;
    assert(config.theta_num == 0 ==> nn == 0) by (nonlinear_arith)
        requires
            nn == config.theta_num * config.theta_num,
    ;
}

/// A tree of at most one body gives the direct sum.
pub proof fn lemma_small_tree_exact(
    subject: Body,
    bodies: Seq<Body>,
    region: Region,
    size: int,
    config: Config,
)
    requires
        bodies.len() <= 1,
    ensures
        approx_gravity(subject, build(bodies, region), size, config) == direct_gravity_sum(
            subject,
            bodies,
            config.gravitational_constant as int,
        ),
{
    let g = config.gravitational_constant as int;
    if bodies.len() == 1 {
        assert(bodies.drop_last().len() == 0);
        assert(bodies.last() == bodies[0]);
        assert(direct_gravity_sum(subject, bodies.drop_last(), g) == Vector::zero());
    }
}

/// With theta zero the tree gives the acceleration of the direct sum,
/// whatever the number of bodies, provided that every body lies in the
/// region and that no two bodies share a position other than that of the
/// subject.
pub proof fn lemma_full_accuracy(
    subject: Body,
    bodies: Seq<Body>,
    region: Region,
    size: int,
    config: Config,
)
    requires
        all_valid(bodies),
        total_mass(bodies) <= MASS_LIMIT,
        region.valid(),
        all_inside(bodies, region),
        coincide_only_at(bodies, subject.position),
        config.theta_num == 0,
    ensures
        approx_gravity(subject, build(bodies, region), size, config) == direct_gravity_sum(
            subject,
            bodies,
            config.gravitational_constant as int,
        ),
    decreases region.width() + region.height(),
{
    let g = config.gravitational_constant as int;
    if bodies.len() <= 1 {
        lemma_small_tree_exact(subject, bodies, region, size, config);
    } else if !region.spec_can_split() {
        let p = Vec2 { x: region.x0, y: region.y0 };
        assert(region.spec_contains(bodies[0].position));
        assert forall|i: int| 0 <= i < bodies.len() implies (#[trigger] bodies[i]).position
            == p by {
            assert(region.spec_contains(bodies[i].position));
        }
        lemma_all_at(subject, bodies, p, g);
        assert(count_at(bodies, p) >= 2);
        assert(p == subject.position);
        Summary::lemma_of_valid(bodies);
        let t = total_mass(bodies);
        assert(bodies[0].valid());
        lemma_total_mass_nonnegative(bodies.drop_last());
        assert(bodies.last() == bodies[bodies.len() - 1]);
        assert(bodies.last().valid());
        assert(t >= 1);
        lemma_div_multiples_vanish(p.x as int, t);
        lemma_div_multiples_vanish(p.y as int, t);
        assert(t * p.x == p.x * t && t * p.y == p.y * t) by (nonlinear_arith);
        assert(Summary::of(bodies).center_of_gravity == p);
        lemma_newton_coincident(p@, t, g);
    } else {
        Summary::lemma_of_valid(bodies);
        lemma_never_far(
            size,
            dist_sq(subject.position@, Summary::of(bodies).center_of_gravity@),
            config,
        );
        lemma_select_valid(bodies, region, Quadrant::NW);
        lemma_select_valid(bodies, region, Quadrant::NE);
        lemma_select_valid(bodies, region, Quadrant::SW);
        lemma_select_valid(bodies, region, Quadrant::SE);
        lemma_select_inside(bodies, region, Quadrant::NW, subject.position);
        lemma_select_inside(bodies, region, Quadrant::NE, subject.position);
        lemma_select_inside(bodies, region, Quadrant::SW, subject.position);
        lemma_select_inside(bodies, region, Quadrant::SE, subject.position);
        lemma_full_accuracy(
            subject,
            select(bodies, region, Quadrant::NW),
            region.spec_child(Quadrant::NW),
            size / 2,
            config,
        );
        lemma_full_accuracy(
            subject,
            select(bodies, region, Quadrant::NE),
            region.spec_child(Quadrant::NE),
            size / 2,
            config,
        );
        lemma_full_accuracy(
            subject,
            select(bodies, region, Quadrant::SW),
            region.spec_child(Quadrant::SW),
            size / 2,
            config,
        );
        lemma_full_accuracy(
            subject,
            select(bodies, region, Quadrant::SE),
            region.spec_child(Quadrant::SE),
            size / 2,
            config,
        );
        lemma_select_direct(subject, bodies, region, g);
    }
}

/// Two bodies: with theta zero each is pulled by the tree exactly as
/// Newton's law says the other pulls it.
pub proof fn lemma_two_bodies_exact(
    bodies: Seq<Body>,
    region: Region,
    size: int,
    config: Config,
    i: int,
)
    requires
        bodies.len() == 2,
        0 <= i < 2,
        bodies[0].id != bodies[1].id,
        all_valid(bodies),
        total_mass(bodies) <= MASS_LIMIT,
        region.valid(),
        all_inside(bodies, region),
        config.theta_num == 0,
    ensures
        approx_gravity(bodies[i], build(bodies, region), size, config) == newton(
            bodies[i].position@,
            bodies[1 - i].position@,
            bodies[1 - i].mass as int,
            config.gravitational_constant as int,
        ),
{
    let subject = bodies[i];
    let g = config.gravitational_constant as int;
    let first = bodies.drop_last();
    assert(first.len() == 1 && first.last() == bodies[0] && first.drop_last().len() == 0);
    assert(bodies.last() == bodies[1]);
    assert forall|r: Vec2| r != subject.position implies #[trigger] count_at(bodies, r) <= 1 by {
        assert(count_at(first.drop_last(), r) == 0);
        assert(count_at(first, r) == if bodies[0].position == r {
            1nat
        } else {
            0nat
        });
    }
    lemma_full_accuracy(subject, bodies, region, size, config);
    assert(direct_gravity_sum(subject, first.drop_last(), g) == Vector::zero());
    assert(direct_gravity_sum(subject, first, g) == if bodies[0].id == subject.id {
        Vector::zero()
    } else {
        newton(subject.position@, bodies[0].position@, bodies[0].mass as int, g)
    });
}

} // verus!
