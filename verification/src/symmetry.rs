//! Balanced configurations: pulls that cancel.

use vstd::prelude::*;
use vstd::arithmetic::div_mod::lemma_div_multiples_vanish;
use crate::body::{all_valid, moment_x, moment_y, total_mass, Body, MASS_LIMIT};
use crate::config::Config;
use crate::exactness::{lemma_never_far, lemma_select_direct, lemma_small_tree_exact};
use crate::gravity::{approx_gravity, direct_gravity_sum, lemma_distance, lemma_newton_opposite, newton};
use crate::region::{Quadrant, Region};
use crate::summary::Summary;
use crate::tree::{build, lemma_select, select};
use crate::vector::{Vec2, Vector};

verus! {

/// `a` and `b` lie opposite each other across `p`: `p` is the middle of the
/// two.
pub open spec fn opposite(a: Vec2, b: Vec2, p: Vec2) -> bool {
    a.x + b.x == 2 * p.x && a.y + b.y == 2 * p.y
}

/// No two bodies are assigned to the same quadrant of the region.
pub open spec fn one_per_quadrant(bodies: Seq<Body>, region: Region) -> bool {
    forall|i: int, j: int|
        0 <= i < j < bodies.len() ==> region.spec_quadrant_of((#[trigger] bodies[i]).position)
            != region.spec_quadrant_of((#[trigger] bodies[j]).position)
}

/// Four bodies in two pairs, the bodies of a pair of equal mass and
/// opposite each other across the subject; none of them is the subject.
pub open spec fn balanced_about(bodies: Seq<Body>, subject: Body) -> bool {
    &&& bodies.len() == 4
    &&& opposite(bodies[0].position, bodies[1].position, subject.position)
    &&& opposite(bodies[2].position, bodies[3].position, subject.position)
    &&& bodies[0].mass == bodies[1].mass
    &&& bodies[2].mass == bodies[3].mass
    &&& forall|i: int| 0 <= i < 4 ==> (#[trigger] bodies[i]).id != subject.id
}

/// Where no two bodies share a quadrant, each selection holds at most one
/// body.
pub proof fn lemma_select_single(bodies: Seq<Body>, region: Region, q: Quadrant)
    requires
        one_per_quadrant(bodies, region),
    ensures
        select(bodies, region, q).len() <= 1,
    decreases bodies.len(),
{
    if bodies.len() > 0 {
        let rest = bodies.drop_last();
        let b = bodies.last();
        assert(one_per_quadrant(rest, region)) by {
            assert forall|i: int, j: int| 0 <= i < j < rest.len() implies region.spec_quadrant_of(
                (#[trigger] rest[i]).position,
            ) != region.spec_quadrant_of((#[trigger] rest[j]).position) by {
                assert(rest[i] == bodies[i] && rest[j] == bodies[j]);
            }
        }
        lemma_select_single(rest, region, q);
        if region.spec_quadrant_of(b.position) == q && select(rest, region, q).len() > 0 {
            lemma_select(rest, region);
            let first = select(rest, region, q)[0];
            assert(rest.contains(first));
            let j = choose|j: int| 0 <= j < rest.len() && rest[j] == first;
            assert(bodies[j] == first);
            assert(bodies[bodies.len() - 1] == b);
        }
    }
}

/// A tree whose root is at the subject's own position and whose root
/// children hold at most one body each gives the direct sum, whatever
/// theta is: the root is at distance zero and is opened, and a child of one
/// body is that body.
pub proof fn lemma_shallow_tree_exact(
    subject: Body,
    bodies: Seq<Body>,
    region: Region,
    size: int,
    config: Config,
)
    requires
        bodies.len() >= 2,
        region.valid(),
        region.spec_can_split(),
        one_per_quadrant(bodies, region),
        Summary::of(bodies).center_of_gravity == subject.position,
    ensures
        approx_gravity(subject, build(bodies, region), size, config) == direct_gravity_sum(
            subject,
            bodies,
            config.gravitational_constant as int,
        ),
{
    let g = config.gravitational_constant as int;
    lemma_distance(subject.position@, subject.position@);
    lemma_never_far(size, 0, config);
    lemma_select_single(bodies, region, Quadrant::NW);
    lemma_select_single(bodies, region, Quadrant::NE);
    lemma_select_single(bodies, region, Quadrant::SW);
    lemma_select_single(bodies, region, Quadrant::SE);
    lemma_small_tree_exact(
        subject,
        select(bodies, region, Quadrant::NW),
        region.spec_child(Quadrant::NW),
        size / 2,
        config,
    );
    lemma_small_tree_exact(
        subject,
        select(bodies, region, Quadrant::NE),
        region.spec_child(Quadrant::NE),
        size / 2,
        config,
    );
    lemma_small_tree_exact(
        subject,
        select(bodies, region, Quadrant::SW),
        region.spec_child(Quadrant::SW),
        size / 2,
        config,
    );
    lemma_small_tree_exact(
        subject,
        select(bodies, region, Quadrant::SE),
        region.spec_child(Quadrant::SE),
        size / 2,
        config,
    );
    lemma_select_direct(subject, bodies, region, g);
}

/// The pulls of a balanced configuration on the body in its middle add up
/// to zero, and its centre of gravity is that middle.
pub proof fn lemma_balanced(subject: Body, bodies: Seq<Body>, g: int)
    requires
        balanced_about(bodies, subject),
        all_valid(bodies),
    ensures
        direct_gravity_sum(subject, bodies, g) == Vector::zero(),
        total_mass(bodies) > 0,
        moment_x(bodies) == total_mass(bodies) * subject.position.x,
        moment_y(bodies) == total_mass(bodies) * subject.position.y,
        total_mass(bodies) <= MASS_LIMIT ==> Summary::of(bodies).center_of_gravity
            == subject.position,
{
    let p = subject.position;
    let s3 = bodies.drop_last();
    let s2 = s3.drop_last();
    let s1 = s2.drop_last();
    let s0 = s1.drop_last();
    assert(s0.len() == 0);
    assert(s1.last() == bodies[0] && s2.last() == bodies[1] && s3.last() == bodies[2]
        && bodies.last() == bodies[3]);
    let (a, b, c, d) = (bodies[0], bodies[1], bodies[2], bodies[3]);
    assert(a.valid() && b.valid() && c.valid() && d.valid());
    // Masses and moments, one body at a time.
    assert(total_mass(s0) == 0 && moment_x(s0) == 0 && moment_y(s0) == 0);
    assert(total_mass(s1) == a.mass);
    assert(total_mass(s2) == a.mass + b.mass);
    assert(total_mass(s3) == a.mass + b.mass + c.mass);
    assert(total_mass(bodies) == a.mass + b.mass + c.mass + d.mass);
    assert(moment_x(s1) == a.mass * a.position.x);
    assert(moment_x(s2) == a.mass * a.position.x + b.mass * b.position.x);
    assert(moment_x(s3) == a.mass * a.position.x + b.mass * b.position.x + c.mass
        * c.position.x);
    assert(moment_y(s1) == a.mass * a.position.y);
    assert(moment_y(s2) == a.mass * a.position.y + b.mass * b.position.y);
    assert(moment_y(s3) == a.mass * a.position.y + b.mass * b.position.y + c.mass
        * c.position.y);
    let (ma, mc) = (a.mass as int, c.mass as int);
    let t = total_mass(bodies);
    assert(ma * a.position.x + ma * b.position.x + mc * c.position.x + mc * d.position.x == (ma
        + ma + mc + mc) * p.x) by (nonlinear_arith)
        requires
            a.position.x + b.position.x == 2 * p.x,
            c.position.x + d.position.x == 2 * p.x,
    ;
    assert(ma * a.position.y + ma * b.position.y + mc * c.position.y + mc * d.position.y == (ma
        + ma + mc + mc) * p.y) by (nonlinear_arith)
        requires
            a.position.y + b.position.y == 2 * p.y,
            c.position.y + d.position.y == 2 * p.y,
    ;
    lemma_div_multiples_vanish(p.x as int, t);
    lemma_div_multiples_vanish(p.y as int, t);
    assert(t * p.x == p.x * t && t * p.y == p.y * t) by (nonlinear_arith);
    // The pulls, one body at a time.
    let u = Vector { x: a.position.x - p.x, y: a.position.y - p.y };
    let v = Vector { x: c.position.x - p.x, y: c.position.y - p.y };
    assert(a.position@ == p@.plus(u) && b.position@ == p@.plus(u.negated()));
    assert(c.position@ == p@.plus(v) && d.position@ == p@.plus(v.negated()));
    lemma_newton_opposite(p@, u, ma, g);
    lemma_newton_opposite(p@, v, mc, g);
    let (fa, fb, fc, fd) = (
        newton(p@, a.position@, ma, g),
        newton(p@, b.position@, ma, g),
        newton(p@, c.position@, mc, g),
        newton(p@, d.position@, mc, g),
    );
    assert(direct_gravity_sum(subject, s0, g) == Vector::zero());
    assert(direct_gravity_sum(subject, s1, g) == Vector::zero().plus(fa));
    assert(direct_gravity_sum(subject, s2, g) == Vector::zero().plus(fa).plus(fb));
    assert(direct_gravity_sum(subject, s3, g) == Vector::zero().plus(fa).plus(fb).plus(fc));
    assert(direct_gravity_sum(subject, bodies, g) == Vector::zero().plus(fa).plus(fb).plus(
        fc,
    ).plus(fd));
}

/// Four bodies in two pairs, each pair of equal masses opposite each other
/// across the subject, as the corners of a square round its centre: where
/// the region assigns each of them a quadrant of its own, the tree pulls
/// the subject with the zero vector, whatever theta is.
pub proof fn lemma_balanced_pulls_cancel(
    subject: Body,
    bodies: Seq<Body>,
    region: Region,
    size: int,
    config: Config,
)
    requires
        balanced_about(bodies, subject),
        all_valid(bodies),
        total_mass(bodies) <= MASS_LIMIT,
        region.valid(),
        region.spec_can_split(),
        one_per_quadrant(bodies, region),
    ensures
        approx_gravity(subject, build(bodies, region), size, config) == Vector::zero(),
{
    let g = config.gravitational_constant as int;
    lemma_balanced(subject, bodies, g);
    lemma_shallow_tree_exact(subject, bodies, region, size, config);
}

} // verus!
