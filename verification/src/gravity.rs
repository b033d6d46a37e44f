//! Newtonian attraction between point masses, and its approximation over a
//! quadtree.

use vstd::prelude::*;
use vstd::arithmetic::div_mod::{lemma_div_is_ordered, lemma_div_multiples_vanish, lemma_div_pos_is_pos};
use crate::arith::{floor_sqrt, isqrt, lemma_floor_sqrt_bounds, lemma_floor_sqrt_dominates};
use crate::body::{all_valid, lemma_total_mass_monotone, total_mass, Body, COORD_LIMIT};
use crate::config::{Config, STRENGTH_LIMIT};
use crate::summary::Summary;
use crate::tree::{Quadtree, TreeView};
use crate::vector::{dist_sq, Vec2, Vector};

verus! {

/// One component of an attraction: `strength * delta / cube`, rounded
/// toward zero.
pub open spec fn pull(strength: int, delta: int, cube: int) -> int {
    if delta >= 0 {
        (strength * delta) / cube
    } else {
        -((strength * (-delta)) / cube)
    }
}

/// The acceleration of a body at `subject` toward a point mass at `source`.
///
/// Its size is `g * mass / d2` and it points from the subject to the source:
/// each component is `g * mass * delta / (d2 * d)`, rounded toward zero,
/// where `delta` is the difference of the coordinates, `d2` the squared
/// distance and `d` the integer part of the distance.  At distance zero
/// there is no direction and the acceleration is zero.  Any other distance
/// is at least one lattice unit, so the result is always finite.
pub open spec fn newton(subject: Vector, source: Vector, mass: int, g: int) -> Vector {
    let d2 = dist_sq(subject, source);
    if d2 == 0 {
        Vector::zero()
    } else {
        let d = floor_sqrt(d2 as nat) as int;
        Vector {
            x: pull(g * mass, source.x - subject.x, d2 * d),
            y: pull(g * mass, source.y - subject.y, d2 * d),
        }
    }
}

/// A component of an attraction is no larger than the strength, where the
/// difference is no longer than the distance.
pub proof fn lemma_pull_bounded(strength: int, delta: int, d2: int, d: int)
    requires
        strength >= 0,
        d >= 1,
        d2 >= 1,
        -d <= delta <= d,
    ensures
        -strength <= pull(strength, delta, d2 * d) <= strength,
        delta >= 0 ==> pull(strength, delta, d2 * d) >= 0,
        delta <= 0 ==> pull(strength, delta, d2 * d) <= 0,
{
    let a = if delta >= 0 {
        delta
    } else {
        -delta
    };
    let cube = d2 * d;
    assert(cube >= 1 && cube >= d) by (nonlinear_arith)
        requires
            d2 >= 1,
            d >= 1,
            cube == d2 * d,
    ;
    assert(0 <= strength * a <= strength * cube) by (nonlinear_arith)
        requires
            strength >= 0,
            0 <= a <= cube,
    ;
    lemma_div_is_ordered(strength * a, strength * cube, cube);
    lemma_div_multiples_vanish(strength, cube);
    lemma_div_pos_is_pos(strength * a, cube);
    lemma_pull_odd(strength, delta, cube);
}

/// Turning the difference round turns the component round.
pub proof fn lemma_pull_odd(strength: int, delta: int, cube: int)
    requires
        cube > 0,
    ensures
        pull(strength, -delta, cube) == -pull(strength, delta, cube),
        pull(strength, 0, cube) == 0,
{
    assert(strength * 0 == 0) by (nonlinear_arith);
    assert(0int / cube == 0) by (nonlinear_arith)
        requires
            cube > 0,
    ;
    assert(-(-delta) == delta);
}

/// The squared distance, its root and the differences of two points.
pub proof fn lemma_distance(a: Vector, b: Vector)
    ensures
        dist_sq(a, b) >= 0,
        dist_sq(a, b) == 0 <==> a == b,
        dist_sq(a, b) > 0 ==> floor_sqrt(dist_sq(a, b) as nat) >= 1,
        -floor_sqrt(dist_sq(a, b) as nat) <= b.x - a.x <= floor_sqrt(dist_sq(a, b) as nat),
        -floor_sqrt(dist_sq(a, b) as nat) <= b.y - a.y <= floor_sqrt(dist_sq(a, b) as nat),
{
    let dx = b.x - a.x;
    let dy = b.y - a.y;
    let ax: int = if dx >= 0 {
        dx
    } else {
        -dx
    };
    let ay: int = if dy >= 0 {
        dy
    } else {
        -dy
    };
    assert(dx * dx >= 0 && dy * dy >= 0 && ax * ax == dx * dx && ay * ay == dy * dy && (dx != 0
        ==> dx * dx >= 1) && (dy != 0 ==> dy * dy >= 1) && (dx == 0 ==> dx * dx == 0) && (dy == 0
        ==> dy * dy == 0)) by (nonlinear_arith)
        requires
            ax == dx || ax == -dx,
            ay == dy || ay == -dy,
    ;
    let n = dist_sq(a, b) as nat;
    lemma_floor_sqrt_dominates(n, ax as nat);
    lemma_floor_sqrt_dominates(n, ay as nat);
    if n > 0 {
        assert(1 * 1 <= n) by (nonlinear_arith)
            requires
                n >= 1,
        ;
        lemma_floor_sqrt_dominates(n, 1);
    }
}

/// No component of an attraction exceeds the constant times the mass.
pub proof fn lemma_newton_bounded(subject: Vector, source: Vector, mass: int, g: int)
    requires
        mass >= 0,
        g >= 0,
    ensures
        newton(subject, source, mass, g).within(g * mass),
{
    let d2 = dist_sq(subject, source);
    lemma_distance(subject, source);
    assert(g * mass >= 0) by (nonlinear_arith)
        requires
            g >= 0,
            mass >= 0,
    ;
    if d2 != 0 {
        let d = floor_sqrt(d2 as nat) as int;
        lemma_pull_bounded(g * mass, source.x - subject.x, d2, d);
        lemma_pull_bounded(g * mass, source.y - subject.y, d2, d);
    }
}

/// A body is not attracted by a mass at its own position.
pub proof fn lemma_newton_coincident(p: Vector, mass: int, g: int)
    ensures
        newton(p, p, mass, g) == Vector::zero(),
{
    lemma_distance(p, p);
}

/// Two equal masses at opposite sides of a body pull it with opposite
/// accelerations.
pub proof fn lemma_newton_opposite(p: Vector, offset: Vector, mass: int, g: int)
    ensures
        newton(p, p.plus(offset), mass, g) == newton(p, p.plus(offset.negated()), mass, g).negated(),
{
    let a = p.plus(offset);
    let b = p.plus(offset.negated());
    assert(dist_sq(p, a) == dist_sq(p, b)) by (nonlinear_arith)
        requires
            a.x - p.x == -(b.x - p.x),
            a.y - p.y == -(b.y - p.y),
    ;
    let d2 = dist_sq(p, a);
    lemma_distance(p, a);
    if d2 != 0 {
        let d = floor_sqrt(d2 as nat) as int;
        assert(d2 * d > 0) by (nonlinear_arith)
            requires
                d2 > 0,
                d >= 1,
        ;
        lemma_pull_odd(g * mass, b.x - p.x, d2 * d);
        lemma_pull_odd(g * mass, b.y - p.y, d2 * d);
        assert(a.x - p.x == -(b.x - p.x));
        assert(a.y - p.y == -(b.y - p.y));
    }
}

/// Two bodies of one mass pull each other with opposite accelerations.
pub proof fn lemma_newton_mutual(p: Vector, q: Vector, mass: int, g: int)
    ensures
        newton(p, q, mass, g) == newton(q, p, mass, g).negated(),
{
    assert(dist_sq(p, q) == dist_sq(q, p)) by (nonlinear_arith)
        requires
            q.x - p.x == -(p.x - q.x),
            q.y - p.y == -(p.y - q.y),
    ;
    let d2 = dist_sq(p, q);
    lemma_distance(p, q);
    if d2 != 0 {
        let d = floor_sqrt(d2 as nat) as int;
        assert(d2 * d > 0) by (nonlinear_arith)
            requires
                d2 > 0,
                d >= 1,
        ;
        lemma_pull_odd(g * mass, p.x - q.x, d2 * d);
        lemma_pull_odd(g * mass, p.y - q.y, d2 * d);
        assert(q.x - p.x == -(p.x - q.x));
        assert(q.y - p.y == -(p.y - q.y));
    }
}

/// One component of an attraction.
fn pull_component(strength: u128, delta: i64, cube: u128) -> (a: i64)
    requires
        strength <= STRENGTH_LIMIT,
        -2 * COORD_LIMIT <= delta <= 2 * COORD_LIMIT,
        cube >= 1,
        -strength <= pull(strength as int, delta as int, cube as int) <= strength,
    ensures
        a == pull(strength as int, delta as int, cube as int),
{
    let size: u128 = if delta >= 0 {
        delta as u128
    } else {
        (-delta) as u128
    };
    assert(strength * size <= 0x4000_0000_0000_0000 * 0x1_0000_0000) by (nonlinear_arith)
        requires
            strength <= 0x4000_0000_0000_0000,
            size <= 0x1_0000_0000,
    ;
    let q: u128 = (strength * size) / cube;
    if delta >= 0 {
        q as i64
    } else {
        -(q as i64)
    }
}

/// The acceleration of a body at `subject_position` toward a point mass of
/// `grav_source_mass` at `grav_source_position`, under the gravitational
/// constant `g`.
pub fn newton_gravity_acceleration(
    subject_position: &Vec2,
    grav_source_position: &Vec2,
    grav_source_mass: u64,
    g: u64,
) -> (a: Vec2)
    requires
        subject_position@.within(COORD_LIMIT as int),
        grav_source_position@.within(COORD_LIMIT as int),
        g * grav_source_mass <= STRENGTH_LIMIT,
    ensures
        a@ == newton(subject_position@, grav_source_position@, grav_source_mass as int, g as int),
        a@.within(g * grav_source_mass),
{
    proof {
        lemma_newton_bounded(
            subject_position@,
            grav_source_position@,
            grav_source_mass as int,
            g as int,
        );
        lemma_distance(subject_position@, grav_source_position@);
    }
    let dx: i64 = grav_source_position.x - subject_position.x;
    let dy: i64 = grav_source_position.y - subject_position.y;
    let d2: u128 = squared_length(dx, dy);
    if d2 == 0 {
        return Vec2 { x: 0, y: 0 };
    }
    let d: u64 = isqrt(d2);
    let strength: u128 = (g as u128) * (grav_source_mass as u128);
    proof {
        lemma_floor_sqrt_bounds(d2 as nat);
        assert(d < 0x2_0000_0000) by (nonlinear_arith)
            requires
                d * d <= d2,
                d2 <= 0x2_0000_0000_0000_0000,
        ;
        assert(d2 * d <= 0x2_0000_0000_0000_0000 * 0x2_0000_0000) by (nonlinear_arith)
            requires
                d2 <= 0x2_0000_0000_0000_0000,
                d < 0x2_0000_0000,
        ;
        assert(d2 * d >= 1) by (nonlinear_arith)
            requires
                d2 >= 1,
                d >= 1,
        ;
        lemma_pull_bounded(strength as int, dx as int, d2 as int, d as int);
        lemma_pull_bounded(strength as int, dy as int, d2 as int, d as int);
    }
    let cube: u128 = d2 * (d as u128);
    Vec2 { x: pull_component(strength, dx, cube), y: pull_component(strength, dy, cube) }
}

/// The squared length of a displacement between two valid positions.
fn squared_length(dx: i64, dy: i64) -> (d2: u128)
    requires
        -2 * COORD_LIMIT <= dx <= 2 * COORD_LIMIT,
        -2 * COORD_LIMIT <= dy <= 2 * COORD_LIMIT,
    ensures
        d2 == dx * dx + dy * dy,
        d2 <= 0x2_0000_0000_0000_0000,
{
    let ax: u128 = if dx >= 0 {
        dx as u128
    } else {
        (-dx) as u128
    };
    let ay: u128 = if dy >= 0 {
        dy as u128
    } else {
        (-dy) as u128
    };
    assert(ax * ax == dx * dx && ay * ay == dy * dy && ax * ax <= 0x1_0000_0000
        * 0x1_0000_0000 && ay * ay <= 0x1_0000_0000 * 0x1_0000_0000) by (nonlinear_arith)
        requires
            ax == dx || ax == -dx,
            ay == dy || ay == -dy,
            0 <= ax <= 0x1_0000_0000,
            0 <= ay <= 0x1_0000_0000,
    ;
    ax * ax + ay * ay
}

/// The opening test of a node: its size divided by its distance is below
/// theta.  Both sides are squared, so that no root is taken:
/// `(size * theta_den)^2 < d2 * theta_num^2`, where `d2` is the squared
/// distance.  At distance zero, and for theta zero, the test fails.
pub open spec fn far_enough(size: int, d2: int, config: Config) -> bool {
    (size * config.theta_den) * (size * config.theta_den) < d2 * (config.theta_num
        * config.theta_num)
}

/// The acceleration of `subject` due to the bodies of a tree whose root
/// covers a region of side `size`.
///
/// - An empty node pulls nothing.
/// - A leaf that holds the subject itself, as its `id` tells, pulls nothing;
///   any other leaf pulls as its body does.
/// - A cluster pulls as one point with its mass at its centre of gravity.
/// - An internal node that is far enough pulls as one point with its mass
///   at its centre of gravity.  Otherwise its four children pull, each with
///   half the size, and their pulls are added in the order north-west,
///   north-east, south-west, south-east.
pub open spec fn approx_gravity(subject: Body, tree: TreeView, size: int, config: Config) -> Vector
    decreases tree,
{
    let g = config.gravitational_constant as int;
    match tree {
        TreeView::Empty => Vector::zero(),
        TreeView::Leaf { body } => if body.id == subject.id {
            Vector::zero()
        } else {
            newton(subject.position@, body.position@, body.mass as int, g)
        },
        TreeView::Cluster { summary, .. } => newton(
            subject.position@,
            summary.center_of_gravity@,
            summary.combined_mass as int,
            g,
        ),
        TreeView::Internal { summary, nw, ne, sw, se } => if far_enough(
            size,
            dist_sq(subject.position@, summary.center_of_gravity@),
            config,
        ) {
            newton(subject.position@, summary.center_of_gravity@, summary.combined_mass as int, g)
        } else {
            approx_gravity(subject, *nw, size / 2, config).plus(
                approx_gravity(subject, *ne, size / 2, config),
            ).plus(approx_gravity(subject, *sw, size / 2, config)).plus(
                approx_gravity(subject, *se, size / 2, config),
            )
        },
    }
}

/// No component of the acceleration due to a tree exceeds the gravitational
/// constant times the mass of the tree.
pub proof fn lemma_approx_gravity_bounded(subject: Body, tree: TreeView, size: int, config: Config)
    requires
        tree.additive(),
    ensures
        approx_gravity(subject, tree, size, config).within(
            config.gravitational_constant * tree.summary().combined_mass,
        ),
    decreases tree,
{
    let g = config.gravitational_constant as int;
    let m = tree.summary().combined_mass as int;
    assert(g * m >= 0) by (nonlinear_arith)
        requires
            g >= 0,
            m >= 0,
    ;
    match tree {
        TreeView::Empty => {},
        TreeView::Leaf { body } => {
            lemma_newton_bounded(subject.position@, body.position@, body.mass as int, g);
        },
        TreeView::Cluster { summary, .. } => {
            lemma_newton_bounded(subject.position@, summary.center_of_gravity@, m, g);
        },
        TreeView::Internal { summary, nw, ne, sw, se } => {
            lemma_newton_bounded(subject.position@, summary.center_of_gravity@, m, g);
            lemma_approx_gravity_bounded(subject, *nw, size / 2, config);
            lemma_approx_gravity_bounded(subject, *ne, size / 2, config);
            lemma_approx_gravity_bounded(subject, *sw, size / 2, config);
            lemma_approx_gravity_bounded(subject, *se, size / 2, config);
            let (a, b, c, d) = (
                nw.summary().combined_mass as int,
                ne.summary().combined_mass as int,
                sw.summary().combined_mass as int,
                se.summary().combined_mass as int,
            );
            assert(g * (a + b + c + d) == g * a + g * b + g * c + g * d) by (nonlinear_arith);
        },
    }
}

/// Tells whether a node of the given size, whose centre of gravity is at
/// the given squared distance, is far enough to stand for its bodies.
fn is_far_enough(size: u64, d2: u128, config: &Config) -> (far: bool)
    requires
        d2 <= 0x2_0000_0000_0000_0000,
    ensures
        far == far_enough(size as int, d2 as int, *config),
{
    assert(size * config.theta_den <= 0x1_0000_0000_0000_0000 * 0x1_0000) by (nonlinear_arith)
        requires
            size <= 0x1_0000_0000_0000_0000,
            config.theta_den <= 0x1_0000,
    ;
    assert(config.theta_num * config.theta_num <= 0x1_0000 * 0x1_0000) by (nonlinear_arith)
        requires
            config.theta_num <= 0x1_0000,
    ;
    let sd: u128 = (size as u128) * (config.theta_den as u128);
    let nn: u128 = (config.theta_num as u128) * (config.theta_num as u128);
    assert(d2 * nn <= 0x2_0000_0000_0000_0000 * 0x1_0000_0000) by (nonlinear_arith)
        requires
            d2 <= 0x2_0000_0000_0000_0000,
            nn <= 0x1_0000_0000,
    ;
    if sd >= 0x4_0000_0000_0000 {
        // The left side alone is beyond anything the right side can be.
        assert(sd * sd >= 0x4_0000_0000_0000 * 0x4_0000_0000_0000) by (nonlinear_arith)
            requires
                sd >= 0x4_0000_0000_0000,
        ;
        false
    } else {
        assert(sd * sd <= 0x4_0000_0000_0000 * 0x4_0000_0000_0000) by (nonlinear_arith)
            requires
                sd <= 0x4_0000_0000_0000,
        ;
        sd * sd < d2 * nn
    }
}

/// The acceleration of `body` due to the bodies of `gravtree`, whose root
/// covers a region of side `tree_node_size`.
pub fn get_approx_gravity(body: Body, gravtree: &Quadtree, tree_node_size: u64, config: &Config) -> (a:
    Vec2)
    requires
        body.position@.within(COORD_LIMIT as int),
        gravtree@.additive(),
        config.gravitational_constant * gravtree@.summary().combined_mass <= STRENGTH_LIMIT,
    ensures
        a@ == approx_gravity(body, gravtree@, tree_node_size as int, *config),
        a@.within(config.gravitational_constant * gravtree@.summary().combined_mass),
    decreases gravtree,
{
    proof {
        lemma_approx_gravity_bounded(body, gravtree@, tree_node_size as int, *config);
    }
    let g = config.gravitational_constant;
    match gravtree {
        Quadtree::Empty => Vec2 { x: 0, y: 0 },
        Quadtree::Leaf { body: other } => {
            if other.id == body.id {
                Vec2 { x: 0, y: 0 }
            } else {
                newton_gravity_acceleration(&body.position, &other.position, other.mass, g)
            }
        },
        Quadtree::Cluster { members, summary } => {
            proof {
                Summary::lemma_of_valid(members@);
                summary.lemma_valid_bounds();
            }
            newton_gravity_acceleration(
                &body.position,
                &summary.center_of_gravity,
                summary.combined_mass,
                g,
            )
        },
        Quadtree::InternalNode { summary, nw, ne, sw, se } => {
            proof {
                summary.lemma_valid_bounds();
            }
            let dx: i64 = summary.center_of_gravity.x - body.position.x;
            let dy: i64 = summary.center_of_gravity.y - body.position.y;
            let d2: u128 = squared_length(dx, dy);
            if is_far_enough(tree_node_size, d2, config) {
                newton_gravity_acceleration(
                    &body.position,
                    &summary.center_of_gravity,
                    summary.combined_mass,
                    g,
                )
            } else {
                let half: u64 = tree_node_size / 2;
                proof {
                    let (ma, mb, mc, md) = (
                        nw@.summary().combined_mass as int,
                        ne@.summary().combined_mass as int,
                        sw@.summary().combined_mass as int,
                        se@.summary().combined_mass as int,
                    );
                    assert(g * ma <= g * (ma + mb + mc + md) && g * mb <= g * (ma + mb + mc + md)
                        && g * mc <= g * (ma + mb + mc + md) && g * md <= g * (ma + mb + mc + md)
                        && g * (ma + mb + mc + md) == g * ma + g * mb + g * mc + g * md)
                        by (nonlinear_arith)
                        requires
                            g >= 0,
                            ma >= 0,
                            mb >= 0,
                            mc >= 0,
                            md >= 0,
                    ;
                }
                let a = get_approx_gravity(body, nw, half, config);
                let b = get_approx_gravity(body, ne, half, config);
                let c = get_approx_gravity(body, sw, half, config);
                let d = get_approx_gravity(body, se, half, config);
                Vec2 { x: a.x + b.x + c.x + d.x, y: a.y + b.y + c.y + d.y }
            }
        },
    }
}

/// The acceleration of `subject` due to every body of the sequence but
/// itself, each taken alone: the sum of their attractions in the order of
/// the sequence.
pub open spec fn direct_gravity_sum(subject: Body, bodies: Seq<Body>, g: int) -> Vector
    decreases bodies.len(),
{
    if bodies.len() == 0 {
        Vector::zero()
    } else {
        let rest = direct_gravity_sum(subject, bodies.drop_last(), g);
        let last = bodies.last();
        if last.id == subject.id {
            rest
        } else {
            rest.plus(newton(subject.position@, last.position@, last.mass as int, g))
        }
    }
}

/// No component of the sum of the attractions exceeds the gravitational
/// constant times the mass of the bodies.
pub proof fn lemma_direct_gravity_bounded(subject: Body, bodies: Seq<Body>, g: int)
    requires
        g >= 0,
    ensures
        total_mass(bodies) >= 0,
        direct_gravity_sum(subject, bodies, g).within(g * total_mass(bodies)),
    decreases bodies.len(),
{
    if bodies.len() == 0 {
        assert(g * 0 == 0) by (nonlinear_arith);
    } else {
        let rest = bodies.drop_last();
        let last = bodies.last();
        lemma_direct_gravity_bounded(subject, rest, g);
        lemma_newton_bounded(subject.position@, last.position@, last.mass as int, g);
        let t = total_mass(rest);
        let m = last.mass as int;
        assert(g * (t + m) == g * t + g * m && g * m >= 0) by (nonlinear_arith)
            requires
                g >= 0,
                m >= 0,
        ;
    }
}

/// The acceleration of `body` due to every other body of the sequence,
/// each taken alone.
pub fn direct_gravity(body: Body, bodies: &Vec<Body>, g: u64) -> (a: Vec2)
    requires
        body.position@.within(COORD_LIMIT as int),
        all_valid(bodies@),
        g * total_mass(bodies@) <= STRENGTH_LIMIT,
    ensures
        a@ == direct_gravity_sum(body, bodies@, g as int),
        a@.within(g * total_mass(bodies@)),
{
    let mut acc = Vec2 { x: 0, y: 0 };
    let mut i: usize = 0;
    while i < bodies.len()
        invariant
            i <= bodies.len(),
            body.position@.within(COORD_LIMIT as int),
            all_valid(bodies@),
            g * total_mass(bodies@) <= STRENGTH_LIMIT,
            acc@ == direct_gravity_sum(body, bodies@.take(i as int), g as int),
        decreases bodies.len() - i,
    {
        let other = bodies[i];
        proof {
            let next = bodies@.take(i + 1);
            assert(next.drop_last() =~= bodies@.take(i as int));
            assert(next.last() == other);
            lemma_total_mass_monotone(bodies@, i + 1);
            lemma_total_mass_monotone(bodies@, i as int);
            lemma_direct_gravity_bounded(body, next, g as int);
            lemma_direct_gravity_bounded(body, bodies@.take(i as int), g as int);
            let t = total_mass(bodies@);
            let tn = total_mass(next);
            let m = other.mass as int;
            assert(g * m <= g * t && g * tn <= g * t) by (nonlinear_arith)
                requires
                    g >= 0,
                    0 <= m <= tn,
                    tn <= t,
            ;
            assert(other.valid());
        }
        if other.id != body.id {
            let pull = newton_gravity_acceleration(&body.position, &other.position, other.mass, g);
            acc = Vec2 { x: acc.x + pull.x, y: acc.y + pull.y };
        }
        i += 1;
    }
    proof {
        assert(bodies@.take(i as int) =~= bodies@);
        lemma_direct_gravity_bounded(body, bodies@, g as int);
    }
    acc
}

} // verus!
