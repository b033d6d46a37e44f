//! Axis-aligned regions of the lattice and their four quadrants.

use vstd::prelude::*;
use crate::body::{all_valid, Body, COORD_LIMIT};
use crate::vector::Vec2;

verus! {

/// Largest absolute value of a region's bound.
pub const REGION_LIMIT: i64 = 0x2_0000_0000;

/// One of the four parts of a split region.  North is the side of the
/// smaller y, west the side of the smaller x.
#[derive(Clone, Copy, Debug, PartialEq, Eq, Structural)]
pub enum Quadrant {
    NW,
    NE,
    SW,
    SE,
}

/// The points `(x, y)` with `x0 <= x < x1` and `y0 <= y < y1`.
#[derive(Clone, Copy, Debug, PartialEq, Eq, Structural)]
pub struct Region {
    pub x0: i64,
    pub x1: i64,
    pub y0: i64,
    pub y1: i64,
}

impl Region {
    /// The bounds are ordered and within `REGION_LIMIT`.
    pub open spec fn valid(self) -> bool {
        &&& -REGION_LIMIT <= self.x0 <= self.x1 <= REGION_LIMIT
        &&& -REGION_LIMIT <= self.y0 <= self.y1 <= REGION_LIMIT
    }

    pub open spec fn width(self) -> int {
        self.x1 - self.x0
    }

    pub open spec fn height(self) -> int {
        self.y1 - self.y0
    }

    /// The longer of the two sides.
    pub open spec fn spec_side(self) -> int {
        if self.width() >= self.height() {
            self.width()
        } else {
            self.height()
        }
    }

    /// The x coordinate at which the region is split.
    pub open spec fn mid_x(self) -> int {
        self.x0 + self.width() / 2
    }

    /// The y coordinate at which the region is split.
    pub open spec fn mid_y(self) -> int {
        self.y0 + self.height() / 2
    }

    pub open spec fn spec_contains(self, p: Vec2) -> bool {
        self.x0 <= p.x < self.x1 && self.y0 <= p.y < self.y1
    }

    /// A side is long enough to be cut in two.
    pub open spec fn spec_can_split(self) -> bool {
        self.width() >= 2 || self.height() >= 2
    }

    /// The quadrant that a point is assigned to.  A point on a split line
    /// belongs to the east, respectively the south, of it.
    pub open spec fn spec_quadrant_of(self, p: Vec2) -> Quadrant {
        if p.x < self.mid_x() {
            if p.y < self.mid_y() {
                Quadrant::NW
            } else {
                Quadrant::SW
            }
        } else {
            if p.y < self.mid_y() {
                Quadrant::NE
            } else {
                Quadrant::SE
            }
        }
    }

    /// The part of the region that a quadrant covers.
    pub open spec fn spec_child(self, q: Quadrant) -> Region {
        let mx = self.mid_x() as i64;
        let my = self.mid_y() as i64;
        match q {
            Quadrant::NW => Region { x0: self.x0, x1: mx, y0: self.y0, y1: my },
            Quadrant::NE => Region { x0: mx, x1: self.x1, y0: self.y0, y1: my },
            Quadrant::SW => Region { x0: self.x0, x1: mx, y0: my, y1: self.y1 },
            Quadrant::SE => Region { x0: mx, x1: self.x1, y0: my, y1: self.y1 },
        }
    }

    /// A region from its four bounds, if they are ordered and within
    /// `REGION_LIMIT`.
    pub fn new(x0: i64, x1: i64, y0: i64, y1: i64) -> (r: Option<Region>)
        ensures
            r.is_some() <==> (Region { x0, x1, y0, y1 }).valid(),
            r.is_some() ==> r.unwrap() == (Region { x0, x1, y0, y1 }),
    {
        if -REGION_LIMIT <= x0 && x0 <= x1 && x1 <= REGION_LIMIT && -REGION_LIMIT <= y0 && y0 <= y1
            && y1 <= REGION_LIMIT {
            Some(Region { x0, x1, y0, y1 })
        } else {
            None
        }
    }

    /// The longer of the two sides.
    pub fn side(&self) -> (s: u64)
        requires
            self.valid(),
        ensures
            s == self.spec_side(),
    {
        let w: i64 = self.x1 - self.x0;
        let h: i64 = self.y1 - self.y0;
        if w >= h {
            w as u64
        } else {
            h as u64
        }
    }

    /// Tells whether the point lies in the region.
    pub fn contains(&self, p: Vec2) -> (inside: bool)
        ensures
            inside == self.spec_contains(p),
    {
        self.x0 <= p.x && p.x < self.x1 && self.y0 <= p.y && p.y < self.y1
    }

    /// Tells whether a side is long enough to be cut in two.
    pub fn can_split(&self) -> (yes: bool)
        requires
            self.valid(),
        ensures
            yes == self.spec_can_split(),
    {
        self.x1 - self.x0 >= 2 || self.y1 - self.y0 >= 2
    }

    /// The quadrant that a point is assigned to.
    pub fn quadrant_of(&self, p: Vec2) -> (q: Quadrant)
        requires
            self.valid(),
        ensures
            q == self.spec_quadrant_of(p),
    {
        let mx: i64 = self.x0 + (self.x1 - self.x0) / 2;
        let my: i64 = self.y0 + (self.y1 - self.y0) / 2;
        if p.x < mx {
            if p.y < my {
                Quadrant::NW
            } else {
                Quadrant::SW
            }
        } else {
            if p.y < my {
                Quadrant::NE
            } else {
                Quadrant::SE
            }
        }
    }

    /// The part of the region that a quadrant covers.
    pub fn child(&self, q: Quadrant) -> (c: Region)
        requires
            self.valid(),
        ensures
            c == self.spec_child(q),
            c.valid(),
    {
        let mx: i64 = self.x0 + (self.x1 - self.x0) / 2;
        let my: i64 = self.y0 + (self.y1 - self.y0) / 2;
        match q {
            Quadrant::NW => Region { x0: self.x0, x1: mx, y0: self.y0, y1: my },
            Quadrant::NE => Region { x0: mx, x1: self.x1, y0: self.y0, y1: my },
            Quadrant::SW => Region { x0: self.x0, x1: mx, y0: my, y1: self.y1 },
            Quadrant::SE => Region { x0: mx, x1: self.x1, y0: my, y1: self.y1 },
        }
    }

    /// A quadrant of a valid region is valid and lies inside it; where the
    /// region can be split, the quadrant's two sides together are shorter;
    /// and a point of the region lies in the quadrant it is assigned to.
    pub proof fn lemma_child(self, q: Quadrant)
        requires
            self.valid(),
        ensures
            self.spec_child(q).valid(),
            self.x0 <= self.spec_child(q).x0 <= self.spec_child(q).x1 <= self.x1,
            self.y0 <= self.spec_child(q).y0 <= self.spec_child(q).y1 <= self.y1,
            self.spec_can_split() ==> self.spec_child(q).width() + self.spec_child(q).height()
                < self.width() + self.height(),
            forall|p: Vec2|
                self.spec_contains(p) && #[trigger] self.spec_quadrant_of(p) == q
                    ==> self.spec_child(q).spec_contains(p),
    {
    }
}

/// Every body lies in the region.
pub open spec fn all_inside(bodies: Seq<Body>, region: Region) -> bool {
    forall|i: int| 0 <= i < bodies.len() ==> region.spec_contains((#[trigger] bodies[i]).position)
}

/// The smallest x coordinate of the bodies; 0 where there is none.
pub open spec fn min_x(bodies: Seq<Body>) -> int
    decreases bodies.len(),
{
    if bodies.len() == 0 {
        0
    } else if bodies.len() == 1 {
        bodies[0].position.x as int
    } else {
        let m = min_x(bodies.drop_last());
        if bodies.last().position.x < m {
            bodies.last().position.x as int
        } else {
            m
        }
    }
}

/// The largest x coordinate of the bodies; 0 where there is none.
pub open spec fn max_x(bodies: Seq<Body>) -> int
    decreases bodies.len(),
{
    if bodies.len() == 0 {
        0
    } else if bodies.len() == 1 {
        bodies[0].position.x as int
    } else {
        let m = max_x(bodies.drop_last());
        if bodies.last().position.x > m {
            bodies.last().position.x as int
        } else {
            m
        }
    }
}

/// The smallest y coordinate of the bodies; 0 where there is none.
pub open spec fn min_y(bodies: Seq<Body>) -> int
    decreases bodies.len(),
{
    if bodies.len() == 0 {
        0
    } else if bodies.len() == 1 {
        bodies[0].position.y as int
    } else {
        let m = min_y(bodies.drop_last());
        if bodies.last().position.y < m {
            bodies.last().position.y as int
        } else {
            m
        }
    }
}

/// The largest y coordinate of the bodies; 0 where there is none.
pub open spec fn max_y(bodies: Seq<Body>) -> int
    decreases bodies.len(),
{
    if bodies.len() == 0 {
        0
    } else if bodies.len() == 1 {
        bodies[0].position.y as int
    } else {
        let m = max_y(bodies.drop_last());
        if bodies.last().position.y > m {
            bodies.last().position.y as int
        } else {
            m
        }
    }
}

/// The extreme coordinates bound every body, and lie within the coordinate
/// limit where the bodies are valid.
pub proof fn lemma_extremes(bodies: Seq<Body>)
    ensures
        forall|i: int|
            0 <= i < bodies.len() ==> min_x(bodies) <= (#[trigger] bodies[i]).position.x <= max_x(
                bodies,
            ) && min_y(bodies) <= bodies[i].position.y <= max_y(bodies),
        min_x(bodies) <= max_x(bodies),
        min_y(bodies) <= max_y(bodies),
        all_valid(bodies) ==> -COORD_LIMIT <= min_x(bodies) && max_x(bodies) <= COORD_LIMIT
            && -COORD_LIMIT <= min_y(bodies) && max_y(bodies) <= COORD_LIMIT,
    decreases bodies.len(),
{
    if bodies.len() == 1 {
        assert(all_valid(bodies) ==> bodies[0].valid());
    } else if bodies.len() > 1 {
        let rest = bodies.drop_last();
        lemma_extremes(rest);
        assert forall|i: int| 0 <= i < bodies.len() implies min_x(bodies) <= (
        #[trigger] bodies[i]).position.x <= max_x(bodies) && min_y(bodies)
            <= bodies[i].position.y <= max_y(bodies) by {
            if i < rest.len() {
                assert(rest[i] == bodies[i]);
            }
        }
        if all_valid(bodies) {
            assert(bodies.last() == bodies[bodies.len() - 1]);
            assert(bodies.last().valid());
            assert forall|i: int| 0 <= i < rest.len() implies (#[trigger] rest[i]).valid() by {
                assert(rest[i] == bodies[i]);
            }
        }
    }
}

/// The side of the smallest square that holds every body with one lattice
/// unit to spare.
pub open spec fn bounding_side(bodies: Seq<Body>) -> int {
    let w = max_x(bodies) - min_x(bodies);
    let h = max_y(bodies) - min_y(bodies);
    if w >= h {
        w + 1
    } else {
        h + 1
    }
}

/// The square region whose north-west corner is at the smallest x and y of
/// the bodies and whose side is one more than their larger spread.  For no
/// body it is the unit square at the origin.
pub open spec fn spec_bounding_region(bodies: Seq<Body>) -> Region {
    Region {
        x0: min_x(bodies) as i64,
        x1: (min_x(bodies) + bounding_side(bodies)) as i64,
        y0: min_y(bodies) as i64,
        y1: (min_y(bodies) + bounding_side(bodies)) as i64,
    }
}

/// The bounding region of valid bodies is a valid square that contains each
/// of them.
pub proof fn lemma_bounding_region(bodies: Seq<Body>)
    requires
        all_valid(bodies),
    ensures
        spec_bounding_region(bodies).valid(),
        spec_bounding_region(bodies).width() == spec_bounding_region(bodies).height(),
        spec_bounding_region(bodies).width() == bounding_side(bodies),
        1 <= bounding_side(bodies) <= 2 * COORD_LIMIT + 1,
        all_inside(bodies, spec_bounding_region(bodies)),
{
    lemma_extremes(bodies);
}

/// Computes the bounding region of the bodies.
pub fn bounding_region(bodies: &Vec<Body>) -> (r: Region)
    requires
        all_valid(bodies@),
    ensures
        r == spec_bounding_region(bodies@),
        r.valid(),
        all_inside(bodies@, r),
{
    proof {
        lemma_bounding_region(bodies@);
    }
    if bodies.len() == 0 {
        return Region { x0: 0, x1: 1, y0: 0, y1: 1 };
    }
    let mut lo_x: i64 = bodies[0].position.x;
    let mut hi_x: i64 = lo_x;
    let mut lo_y: i64 = bodies[0].position.y;
    let mut hi_y: i64 = lo_y;
    let mut i: usize = 1;
    assert(bodies@.take(1).drop_last().len() == 0);
    while i < bodies.len()
        invariant
            1 <= i <= bodies.len(),
            all_valid(bodies@),
            lo_x == min_x(bodies@.take(i as int)),
            hi_x == max_x(bodies@.take(i as int)),
            lo_y == min_y(bodies@.take(i as int)),
            hi_y == max_y(bodies@.take(i as int)),
        decreases bodies.len() - i,
    {
        let p = bodies[i].position;
        proof {
            assert(bodies@.take(i + 1).drop_last() =~= bodies@.take(i as int));
            assert(bodies@.take(i + 1).last() == bodies@[i as int]);
        }
        if p.x < lo_x {
            lo_x = p.x;
        }
        if p.x > hi_x {
            hi_x = p.x;
        }
        if p.y < lo_y {
            lo_y = p.y;
        }
        if p.y > hi_y {
            hi_y = p.y;
        }
        i += 1;
    }
    proof {
        assert(bodies@.take(i as int) =~= bodies@);
        lemma_extremes(bodies@);
    }
    let w: i64 = hi_x - lo_x;
    let h: i64 = hi_y - lo_y;
    let side: i64 = if w >= h {
        w + 1
    } else {
        h + 1
    };
    Region { x0: lo_x, x1: lo_x + side, y0: lo_y, y1: lo_y + side }
}

} // verus!
