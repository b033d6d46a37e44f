//! The aggregate of a group of bodies: total mass, first moments and centre
//! of gravity.

use vstd::prelude::*;
use vstd::arithmetic::div_mod::{lemma_div_multiples_vanish, lemma_fundamental_div_mod, lemma_mod_bound};
use crate::arith::div_floor;
use crate::body::{all_valid, lemma_aggregates_bounded, lemma_total_mass_monotone, moment_x, moment_y, total_mass, Body, COORD_LIMIT, MASS_LIMIT};
use crate::vector::Vec2;

verus! {

/// What a node of the tree knows of the bodies below it.  The moments are
/// the exact sums of mass times coordinate; the centre of gravity is their
/// quotient by the mass, rounded down.
#[derive(Clone, Copy, Debug, PartialEq, Eq, Structural)]
pub struct Summary {
    pub center_of_gravity: Vec2,
    pub combined_mass: u64,
    pub moment_x: i128,
    pub moment_y: i128,
}

/// The mass-weighted mean of one coordinate, rounded down; 0 for no mass.
pub open spec fn mean(moment: int, mass: int) -> int {
    if mass > 0 {
        moment / mass
    } else {
        0
    }
}

/// A moment bounded by `mass * limit` has a mean bounded by `limit`.
pub proof fn lemma_mean_bounded(moment: int, mass: int, limit: int)
    requires
        mass >= 0,
        limit >= 0,
        -mass * limit <= moment <= mass * limit,
    ensures
        -limit <= mean(moment, mass) <= limit,
{
    if mass > 0 {
        let q = moment / mass;
        let r = moment % mass;
        lemma_fundamental_div_mod(moment, mass);
        lemma_mod_bound(moment, mass);
        assert(moment == mass * q + r);
        if q > limit {
            assert(mass * q >= mass * (limit + 1)) by (nonlinear_arith)
                requires
                    mass > 0,
                    q >= limit + 1,
            ;
            assert(mass * (limit + 1) == mass * limit + mass) by (nonlinear_arith);
        }
        if q < -limit {
            assert(mass * q <= mass * (-limit - 1)) by (nonlinear_arith)
                requires
                    mass > 0,
                    q <= -limit - 1,
            ;
            assert(mass * (-limit - 1) == -mass * limit - mass) by (nonlinear_arith);
        }
    }
}

impl Summary {
    /// The summary of no body.
    pub open spec fn spec_empty() -> Summary {
        Summary {
            center_of_gravity: Vec2 { x: 0, y: 0 },
            combined_mass: 0,
            moment_x: 0,
            moment_y: 0,
        }
    }

    /// The summary of one body.
    pub open spec fn spec_of_body(b: Body) -> Summary {
        Summary {
            center_of_gravity: b.position,
            combined_mass: b.mass,
            moment_x: (b.mass * b.position.x) as i128,
            moment_y: (b.mass * b.position.y) as i128,
        }
    }

    /// The summary of a sequence of bodies.
    pub open spec fn of(bodies: Seq<Body>) -> Summary {
        Summary {
            center_of_gravity: Vec2 {
                x: mean(moment_x(bodies), total_mass(bodies)) as i64,
                y: mean(moment_y(bodies), total_mass(bodies)) as i64,
            },
            combined_mass: total_mass(bodies) as u64,
            moment_x: moment_x(bodies) as i128,
            moment_y: moment_y(bodies) as i128,
        }
    }

    /// The summary of four groups taken together: masses and moments add up,
    /// and the centre of gravity is the mean of the sums.
    pub open spec fn spec_combine(a: Summary, b: Summary, c: Summary, d: Summary) -> Summary {
        let mass = a.combined_mass + b.combined_mass + c.combined_mass + d.combined_mass;
        let mx = a.moment_x + b.moment_x + c.moment_x + d.moment_x;
        let my = a.moment_y + b.moment_y + c.moment_y + d.moment_y;
        Summary {
            center_of_gravity: Vec2 { x: mean(mx, mass) as i64, y: mean(my, mass) as i64 },
            combined_mass: mass as u64,
            moment_x: mx as i128,
            moment_y: my as i128,
        }
    }

    /// The mass is within `MASS_LIMIT`, each moment is bounded by the mass
    /// times `COORD_LIMIT`, and the centre of gravity is the mean.
    pub open spec fn valid(self) -> bool {
        &&& self.combined_mass <= MASS_LIMIT
        &&& -self.combined_mass * COORD_LIMIT <= self.moment_x <= self.combined_mass * COORD_LIMIT
        &&& -self.combined_mass * COORD_LIMIT <= self.moment_y <= self.combined_mass * COORD_LIMIT
        &&& self.center_of_gravity.x == mean(self.moment_x as int, self.combined_mass as int)
        &&& self.center_of_gravity.y == mean(self.moment_y as int, self.combined_mass as int)
    }

    /// The summary of valid bodies within the mass limit is valid, holds their
    /// exact aggregates, and its centre of gravity is a valid position.
    pub proof fn lemma_of_valid(bodies: Seq<Body>)
        requires
            all_valid(bodies),
            total_mass(bodies) <= MASS_LIMIT,
        ensures
            Summary::of(bodies).valid(),
            Summary::of(bodies).combined_mass == total_mass(bodies),
            Summary::of(bodies).moment_x == moment_x(bodies),
            Summary::of(bodies).moment_y == moment_y(bodies),
            Summary::of(bodies).center_of_gravity@.within(COORD_LIMIT as int),
    {
        lemma_aggregates_bounded(bodies);
        let m = total_mass(bodies);
        let l = COORD_LIMIT as int;
        assert(m * l <= 0x4000_0000_0000_0000 * 0x8000_0000) by (nonlinear_arith)
            requires
                0 <= m <= 0x4000_0000_0000_0000,
                l == 0x8000_0000,
        ;
        lemma_mean_bounded(moment_x(bodies), m, l);
        lemma_mean_bounded(moment_y(bodies), m, l);
    }

    /// The summary of one valid body is the summary of the sequence that
    /// holds just that body.
    pub proof fn lemma_of_body(b: Body)
        requires
            b.valid(),
        ensures
            Summary::spec_of_body(b) == Summary::of(seq![b]),
            Summary::spec_of_body(b).valid(),
    {
        let s = seq![b];
        assert(s.drop_last() =~= Seq::<Body>::empty());
        assert(s.last() == b);
        assert(total_mass(s.drop_last()) == 0);
        assert(moment_x(s.drop_last()) == 0);
        assert(moment_y(s.drop_last()) == 0);
        assert(total_mass(s) == b.mass);
        assert(moment_x(s) == b.mass * b.position.x);
        assert(moment_y(s) == b.mass * b.position.y);
        assert(all_valid(s));
        Summary::lemma_of_valid(s);
        let m = b.mass as int;
        lemma_div_multiples_vanish(b.position.x as int, m);
        lemma_div_multiples_vanish(b.position.y as int, m);
        assert(m * b.position.x == b.position.x * m) by (nonlinear_arith);
        assert(m * b.position.y == b.position.y * m) by (nonlinear_arith);
    }

    /// A valid summary's moments fit well inside an `i128`, and its centre of
    /// gravity is a valid position.
    pub proof fn lemma_valid_bounds(self)
        requires
            self.valid(),
        ensures
            -0x2000_0000_0000_0000_0000_0000 <= self.moment_x <= 0x2000_0000_0000_0000_0000_0000,
            -0x2000_0000_0000_0000_0000_0000 <= self.moment_y <= 0x2000_0000_0000_0000_0000_0000,
            self.center_of_gravity@.within(COORD_LIMIT as int),
    {
        let m = self.combined_mass as int;
        let l = COORD_LIMIT as int;
        assert(m * l <= 0x4000_0000_0000_0000 * 0x8000_0000) by (nonlinear_arith)
            requires
                0 <= m <= 0x4000_0000_0000_0000,
                l == 0x8000_0000,
        ;
        lemma_mean_bounded(self.moment_x as int, m, l);
        lemma_mean_bounded(self.moment_y as int, m, l);
    }

    /// The summary of no body.
    pub fn empty() -> (s: Summary)
        ensures
            s == Summary::spec_empty(),
            s.valid(),
    {
        Summary { center_of_gravity: Vec2 { x: 0, y: 0 }, combined_mass: 0, moment_x: 0, moment_y: 0 }
    }

    /// The summary of one body.
    pub fn of_body(b: &Body) -> (s: Summary)
        requires
            b.valid(),
        ensures
            s == Summary::spec_of_body(*b),
            s.valid(),
    {
        proof {
            Summary::lemma_of_body(*b);
            Summary::spec_of_body(*b).lemma_valid_bounds();
        }
        let m: i128 = b.mass as i128;
        assert(-0x2000_0000_0000_0000_0000_0000 <= m * b.position.x
            <= 0x2000_0000_0000_0000_0000_0000 && -0x2000_0000_0000_0000_0000_0000 <= m
            * b.position.y <= 0x2000_0000_0000_0000_0000_0000) by (nonlinear_arith)
            requires
                0 <= m <= 0x4000_0000_0000_0000,
                -0x8000_0000 <= b.position.x <= 0x8000_0000,
                -0x8000_0000 <= b.position.y <= 0x8000_0000,
        ;
        Summary {
            center_of_gravity: b.position,
            combined_mass: b.mass,
            moment_x: m * (b.position.x as i128),
            moment_y: m * (b.position.y as i128),
        }
    }

    /// The summary of four groups taken together.  A group without mass
    /// adds nothing, and where no group has mass the centre of gravity is
    /// the origin.
    pub fn combine(a: &Summary, b: &Summary, c: &Summary, d: &Summary) -> (s: Summary)
        requires
            a.valid(),
            b.valid(),
            c.valid(),
            d.valid(),
            a.combined_mass + b.combined_mass + c.combined_mass + d.combined_mass <= MASS_LIMIT,
        ensures
            s == Summary::spec_combine(*a, *b, *c, *d),
            s.valid(),
    {
        proof {
            a.lemma_valid_bounds();
            b.lemma_valid_bounds();
            c.lemma_valid_bounds();
            d.lemma_valid_bounds();
        }
        let mass: u64 = a.combined_mass + b.combined_mass + c.combined_mass + d.combined_mass;
        let mx: i128 = a.moment_x + b.moment_x + c.moment_x + d.moment_x;
        let my: i128 = a.moment_y + b.moment_y + c.moment_y + d.moment_y;
        proof {
            let l = COORD_LIMIT as int;
            let (ma, mb, mc, md) = (
                a.combined_mass as int,
                b.combined_mass as int,
                c.combined_mass as int,
                d.combined_mass as int,
            );
            assert((ma + mb + mc + md) * l == ma * l + mb * l + mc * l + md * l)
                by (nonlinear_arith);
            assert(-(ma + mb + mc + md) * l == -ma * l + -mb * l + -mc * l + -md * l)
                by (nonlinear_arith);
            lemma_mean_bounded(mx as int, mass as int, l);
            lemma_mean_bounded(my as int, mass as int, l);
        }
        let center = if mass > 0 {
            Vec2 { x: div_floor(mx, mass) as i64, y: div_floor(my, mass) as i64 }
        } else {
            Vec2 { x: 0, y: 0 }
        };
        Summary { center_of_gravity: center, combined_mass: mass, moment_x: mx, moment_y: my }
    }
}

/// Computes the summary of a sequence of bodies.
pub fn summarize(bodies: &Vec<Body>) -> (s: Summary)
    requires
        all_valid(bodies@),
        total_mass(bodies@) <= MASS_LIMIT,
    ensures
        s == Summary::of(bodies@),
        s.valid(),
{
    let mut mass: u64 = 0;
    let mut mx: i128 = 0;
    let mut my: i128 = 0;
    let mut i: usize = 0;
    while i < bodies.len()
        invariant
            i <= bodies.len(),
            all_valid(bodies@),
            total_mass(bodies@) <= MASS_LIMIT,
            mass == total_mass(bodies@.take(i as int)),
            mx == moment_x(bodies@.take(i as int)),
            my == moment_y(bodies@.take(i as int)),
        decreases bodies.len() - i,
    {
        let b = bodies[i];
        proof {
            let next = bodies@.take(i + 1);
            assert(next.drop_last() =~= bodies@.take(i as int));
            assert(next.last() == b);
            lemma_total_mass_monotone(bodies@, i + 1);
            assert(all_valid(next)) by {
                assert forall|k: int| 0 <= k < next.len() implies (#[trigger] next[k]).valid() by {
                    assert(next[k] == bodies@[k]);
                }
            }
            Summary::lemma_of_valid(next);
            Summary::of(next).lemma_valid_bounds();
            assert(b.valid());
            assert(-0x2000_0000_0000_0000_0000_0000 <= b.mass * b.position.x
                <= 0x2000_0000_0000_0000_0000_0000 && -0x2000_0000_0000_0000_0000_0000 <= b.mass
                * b.position.y <= 0x2000_0000_0000_0000_0000_0000) by (nonlinear_arith)
                requires
                    0 <= b.mass <= 0x4000_0000_0000_0000,
                    -0x8000_0000 <= b.position.x <= 0x8000_0000,
                    -0x8000_0000 <= b.position.y <= 0x8000_0000,
            ;
        }
        mass = mass + b.mass;
        mx = mx + (b.mass as i128) * (b.position.x as i128);
        my = my + (b.mass as i128) * (b.position.y as i128);
        i += 1;
    }
    proof {
        assert(bodies@.take(i as int) =~= bodies@);
        Summary::lemma_of_valid(bodies@);
        Summary::of(bodies@).lemma_valid_bounds();
    }
    let center = if mass > 0 {
        Vec2 { x: div_floor(mx, mass) as i64, y: div_floor(my, mass) as i64 }
    } else {
        Vec2 { x: 0, y: 0 }
    };
    Summary { center_of_gravity: center, combined_mass: mass, moment_x: mx, moment_y: my }
}

} // verus!
