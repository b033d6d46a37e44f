//! Point masses and the aggregates of a sequence of them.

use vstd::prelude::*;
use crate::vector::Vec2;

verus! {

/// Largest absolute value of a position coordinate.
pub const COORD_LIMIT: i64 = 0x8000_0000;

/// Largest mass of a body, and of all bodies of a store together.
pub const MASS_LIMIT: u64 = 0x4000_0000_0000_0000;

/// A point mass.  `id` tells bodies apart: two bodies at one position are
/// still two bodies.
#[derive(Clone, Copy, Debug, PartialEq, Eq, Structural)]
pub struct Body {
    pub id: usize,
    pub position: Vec2,
    pub mass: u64,
    pub velocity: Vec2,
    pub acceleration: Vec2,
}

impl Body {
    /// The position is on the supported part of the lattice and the mass is
    /// positive and bounded.
    pub open spec fn valid(self) -> bool {
        &&& self.position@.within(COORD_LIMIT as int)
        &&& 1 <= self.mass <= MASS_LIMIT
    }

    /// A body at rest.
    pub fn at_rest(id: usize, position: Vec2, mass: u64) -> (b: Body)
        ensures
            b == (Body { id, position, mass, velocity: Vec2 { x: 0, y: 0 }, acceleration: Vec2 {
                x: 0,
                y: 0,
            } }),
    {
        Body { id, position, mass, velocity: Vec2::zero(), acceleration: Vec2::zero() }
    }

    /// Tells whether the body is valid.
    pub fn is_valid(&self) -> (ok: bool)
        ensures
            ok == self.valid(),
    {
        -COORD_LIMIT <= self.position.x && self.position.x <= COORD_LIMIT && -COORD_LIMIT
            <= self.position.y && self.position.y <= COORD_LIMIT && 1 <= self.mass && self.mass
            <= MASS_LIMIT
    }
}

/// Every body of the sequence is valid.
pub open spec fn all_valid(bodies: Seq<Body>) -> bool {
    forall|i: int| 0 <= i < bodies.len() ==> (#[trigger] bodies[i]).valid()
}

/// Every body of the sequence stands at the index that its `id` names.
pub open spec fn indexed(bodies: Seq<Body>) -> bool {
    forall|i: int| 0 <= i < bodies.len() ==> (#[trigger] bodies[i]).id == i
}

/// The sum of the masses.
pub open spec fn total_mass(bodies: Seq<Body>) -> int
    decreases bodies.len(),
{
    if bodies.len() == 0 {
        0
    } else {
        total_mass(bodies.drop_last()) + bodies.last().mass
    }
}

/// The sum of mass times x coordinate.
pub open spec fn moment_x(bodies: Seq<Body>) -> int
    decreases bodies.len(),
{
    if bodies.len() == 0 {
        0
    } else {
        moment_x(bodies.drop_last()) + bodies.last().mass * bodies.last().position.x
    }
}

/// The sum of mass times y coordinate.
pub open spec fn moment_y(bodies: Seq<Body>) -> int
    decreases bodies.len(),
{
    if bodies.len() == 0 {
        0
    } else {
        moment_y(bodies.drop_last()) + bodies.last().mass * bodies.last().position.y
    }
}

/// The aggregates of a sequence with one more body at its end.
pub proof fn lemma_aggregates_push(bodies: Seq<Body>, b: Body)
    ensures
        total_mass(bodies.push(b)) == total_mass(bodies) + b.mass,
        moment_x(bodies.push(b)) == moment_x(bodies) + b.mass * b.position.x,
        moment_y(bodies.push(b)) == moment_y(bodies) + b.mass * b.position.y,
{
    assert(bodies.push(b).drop_last() =~= bodies);
}

/// With valid bodies, no mass is negative and each moment is bounded by the
/// total mass times the coordinate limit.
pub proof fn lemma_aggregates_bounded(bodies: Seq<Body>)
    requires
        all_valid(bodies),
    ensures
        total_mass(bodies) >= bodies.len(),
        -total_mass(bodies) * COORD_LIMIT <= moment_x(bodies) <= total_mass(bodies) * COORD_LIMIT,
        -total_mass(bodies) * COORD_LIMIT <= moment_y(bodies) <= total_mass(bodies) * COORD_LIMIT,
    decreases bodies.len(),
{
    if bodies.len() > 0 {
        let rest = bodies.drop_last();
        let b = bodies.last();
        assert(all_valid(rest)) by {
            assert forall|i: int| 0 <= i < rest.len() implies (#[trigger] rest[i]).valid() by {
                assert(rest[i] == bodies[i]);
            }
        }
        lemma_aggregates_bounded(rest);
        assert(b.valid());
        let m = b.mass as int;
        let x = b.position.x as int;
        let y = b.position.y as int;
        let l = COORD_LIMIT as int;
        assert(-m * l <= m * x <= m * l) by (nonlinear_arith)
            requires
                m >= 0,
                -l <= x <= l,
        ;
        assert(-m * l <= m * y <= m * l) by (nonlinear_arith)
            requires
                m >= 0,
                -l <= y <= l,
        ;
        let t = total_mass(rest);
        assert((t + m) * l == t * l + m * l) by (nonlinear_arith);
        assert(-(t + m) * l == -t * l + -m * l) by (nonlinear_arith);
    }
}

/// A prefix of a sequence of valid bodies weighs no more than the whole.
pub proof fn lemma_total_mass_monotone(bodies: Seq<Body>, n: int)
    requires
        0 <= n <= bodies.len(),
    ensures
        0 <= total_mass(bodies.take(n)) <= total_mass(bodies),
    decreases bodies.len() - n,
{
    if n == bodies.len() {
        assert(bodies.take(n) =~= bodies);
        lemma_total_mass_nonnegative(bodies);
    } else {
        lemma_total_mass_monotone(bodies, n + 1);
        assert(bodies.take(n + 1).drop_last() =~= bodies.take(n));
        lemma_total_mass_nonnegative(bodies.take(n));
    }
}

/// A total mass is never negative.
pub proof fn lemma_total_mass_nonnegative(bodies: Seq<Body>)
    ensures
        total_mass(bodies) >= 0,
    decreases bodies.len(),
{
    if bodies.len() > 0 {
        lemma_total_mass_nonnegative(bodies.drop_last());
    }
}

/// Tells whether every body is valid and all of them together are within
/// the mass limit.
pub fn check_bodies(bodies: &Vec<Body>) -> (ok: bool)
    ensures
        ok == (all_valid(bodies@) && total_mass(bodies@) <= MASS_LIMIT),
{
    let mut mass: u64 = 0;
    let mut i: usize = 0;
    while i < bodies.len()
        invariant
            i <= bodies.len(),
            forall|k: int| 0 <= k < i ==> (#[trigger] bodies@[k]).valid(),
            mass == total_mass(bodies@.take(i as int)),
            mass <= MASS_LIMIT,
        decreases bodies.len() - i,
    {
        let b = bodies[i];
        if !b.is_valid() {
            return false;
        }
        proof {
            assert(bodies@.take(i + 1).drop_last() =~= bodies@.take(i as int));
            assert(bodies@.take(i + 1).last() == b);
            lemma_total_mass_monotone(bodies@, i + 1);
        }
        if b.mass > MASS_LIMIT - mass {
            return false;
        }
        mass = mass + b.mass;
        i += 1;
    }
    proof {
        assert(bodies@.take(i as int) =~= bodies@);
    }
    true
}

} // verus!
