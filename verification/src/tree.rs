//! The quadtree over a set of bodies and its construction.

use vstd::prelude::*;
use vstd::multiset::Multiset;
use vstd::seq_lib::{lemma_multiset_commutative, to_multiset_build};
use crate::body::{all_valid, check_bodies, lemma_aggregates_push, lemma_total_mass_nonnegative, moment_x, moment_y, total_mass, Body, MASS_LIMIT};
use crate::region::{all_inside, Quadrant, Region};
use crate::summary::{summarize, Summary};
use crate::vector::Vec2;

verus! {

/// The mathematical value of a quadtree.
pub enum TreeView {
    /// No body.
    Empty,
    /// Exactly one body.
    Leaf { body: Body },
    /// Two or more bodies in a region too small to be split, kept together
    /// as one aggregate point.
    Cluster { members: Seq<Body>, summary: Summary },
    /// Two or more bodies, divided among the four quadrants of the region.
    Internal {
        summary: Summary,
        nw: Box<TreeView>,
        ne: Box<TreeView>,
        sw: Box<TreeView>,
        se: Box<TreeView>,
    },
}

/// A quadtree.  Each node owns its four children, and the tree holds a copy
/// of every body it was built from.
#[derive(Debug)]
pub enum Quadtree {
    /// No body.
    Empty,
    /// Exactly one body.
    Leaf { body: Body },
    /// Two or more bodies in a region too small to be split, kept together
    /// as one aggregate point.
    Cluster { members: Vec<Body>, summary: Summary },
    /// Two or more bodies, divided among the four quadrants of the region.
    InternalNode {
        summary: Summary,
        nw: Box<Quadtree>,
        ne: Box<Quadtree>,
        sw: Box<Quadtree>,
        se: Box<Quadtree>,
    },
}

impl Quadtree {
    /// The mathematical value of the tree.
    pub open spec fn model(&self) -> TreeView
        decreases self,
    {
        match self {
            Quadtree::Empty => TreeView::Empty,
            Quadtree::Leaf { body } => TreeView::Leaf { body: *body },
            Quadtree::Cluster { members, summary } => TreeView::Cluster {
                members: members@,
                summary: *summary,
            },
            Quadtree::InternalNode { summary, nw, ne, sw, se } => TreeView::Internal {
                summary: *summary,
                nw: Box::new(nw.model()),
                ne: Box::new(ne.model()),
                sw: Box::new(sw.model()),
                se: Box::new(se.model()),
            },
        }
    }
}

impl View for Quadtree {
    type V = TreeView;

    open spec fn view(&self) -> TreeView {
        self.model()
    }
}

impl TreeView {
    /// The aggregate that stands for the whole tree.
    pub open spec fn summary(self) -> Summary {
        match self {
            TreeView::Empty => Summary::spec_empty(),
            TreeView::Leaf { body } => Summary::spec_of_body(body),
            TreeView::Cluster { summary, .. } => summary,
            TreeView::Internal { summary, .. } => summary,
        }
    }

    /// The bodies of the tree, quadrant by quadrant: north-west, north-east,
    /// south-west, south-east.
    pub open spec fn leaves(self) -> Seq<Body>
        decreases self,
    {
        match self {
            TreeView::Empty => Seq::empty(),
            TreeView::Leaf { body } => seq![body],
            TreeView::Cluster { members, .. } => members,
            TreeView::Internal { nw, ne, sw, se, .. } => nw.leaves() + ne.leaves() + sw.leaves()
                + se.leaves(),
        }
    }

    /// Every body is where the tree says: the body of a leaf lies in the
    /// part of the region that the leaf stands for, the members of a cluster
    /// all stand on the one lattice point of its part, and the children of
    /// an internal node are placed in the four quadrants of its part.
    pub open spec fn placed(self, region: Region) -> bool
        decreases self,
    {
        match self {
            TreeView::Empty => true,
            TreeView::Leaf { body } => region.spec_contains(body.position),
            TreeView::Cluster { members, .. } => forall|i: int|
                0 <= i < members.len() ==> (#[trigger] members[i]).position == (Vec2 {
                    x: region.x0,
                    y: region.y0,
                }),
            TreeView::Internal { nw, ne, sw, se, .. } => {
                &&& nw.placed(region.spec_child(Quadrant::NW))
                &&& ne.placed(region.spec_child(Quadrant::NE))
                &&& sw.placed(region.spec_child(Quadrant::SW))
                &&& se.placed(region.spec_child(Quadrant::SE))
            },
        }
    }

    /// At every internal node the mass and the two moments are the sums of
    /// those of the four children; the summary of a cluster is that of its
    /// members; every body is valid and every summary is.
    pub open spec fn additive(self) -> bool
        decreases self,
    {
        match self {
            TreeView::Empty => true,
            TreeView::Leaf { body } => body.valid(),
            TreeView::Cluster { members, summary } => {
                &&& all_valid(members)
                &&& total_mass(members) <= MASS_LIMIT
                &&& summary == Summary::of(members)
            },
            TreeView::Internal { summary, nw, ne, sw, se } => {
                &&& summary == Summary::spec_combine(
                    nw.summary(),
                    ne.summary(),
                    sw.summary(),
                    se.summary(),
                )
                &&& summary.combined_mass == nw.summary().combined_mass
                    + ne.summary().combined_mass + sw.summary().combined_mass
                    + se.summary().combined_mass
                &&& summary.moment_x == nw.summary().moment_x + ne.summary().moment_x
                    + sw.summary().moment_x + se.summary().moment_x
                &&& summary.moment_y == nw.summary().moment_y + ne.summary().moment_y
                    + sw.summary().moment_y + se.summary().moment_y
                &&& summary.valid()
                &&& nw.additive()
                &&& ne.additive()
                &&& sw.additive()
                &&& se.additive()
            },
        }
    }
}

/// The bodies that a region assigns to one of its quadrants, in their order.
pub open spec fn select(bodies: Seq<Body>, region: Region, q: Quadrant) -> Seq<Body>
    decreases bodies.len(),
{
    if bodies.len() == 0 {
        Seq::empty()
    } else {
        let rest = select(bodies.drop_last(), region, q);
        if region.spec_quadrant_of(bodies.last().position) == q {
            rest.push(bodies.last())
        } else {
            rest
        }
    }
}

/// The four selections of a sequence hold bodies of that sequence only, and
/// their aggregates add up to those of the sequence.
pub proof fn lemma_select(bodies: Seq<Body>, region: Region)
    ensures
        forall|q: Quadrant, i: int|
            0 <= i < select(bodies, region, q).len() ==> bodies.contains(
                #[trigger] select(bodies, region, q)[i],
            ) && region.spec_quadrant_of(select(bodies, region, q)[i].position) == q,
        select(bodies, region, Quadrant::NW).len() + select(bodies, region, Quadrant::NE).len()
            + select(bodies, region, Quadrant::SW).len() + select(
            bodies,
            region,
            Quadrant::SE,
        ).len() == bodies.len(),
        total_mass(select(bodies, region, Quadrant::NW)) + total_mass(
            select(bodies, region, Quadrant::NE),
        ) + total_mass(select(bodies, region, Quadrant::SW)) + total_mass(
            select(bodies, region, Quadrant::SE),
        ) == total_mass(bodies),
        moment_x(select(bodies, region, Quadrant::NW)) + moment_x(
            select(bodies, region, Quadrant::NE),
        ) + moment_x(select(bodies, region, Quadrant::SW)) + moment_x(
            select(bodies, region, Quadrant::SE),
        ) == moment_x(bodies),
        moment_y(select(bodies, region, Quadrant::NW)) + moment_y(
            select(bodies, region, Quadrant::NE),
        ) + moment_y(select(bodies, region, Quadrant::SW)) + moment_y(
            select(bodies, region, Quadrant::SE),
        ) == moment_y(bodies),
    decreases bodies.len(),
{
    if bodies.len() > 0 {
        let rest = bodies.drop_last();
        let b = bodies.last();
        lemma_select(rest, region);
        lemma_aggregates_push(select(rest, region, Quadrant::NW), b);
        lemma_aggregates_push(select(rest, region, Quadrant::NE), b);
        lemma_aggregates_push(select(rest, region, Quadrant::SW), b);
        lemma_aggregates_push(select(rest, region, Quadrant::SE), b);
        assert forall|q: Quadrant, i: int| 0 <= i < select(bodies, region, q).len() implies (
        bodies.contains(#[trigger] select(bodies, region, q)[i]) && region.spec_quadrant_of(
            select(bodies, region, q)[i].position,
        ) == q) by {
            let s = select(bodies, region, q);
            let r = select(rest, region, q);
            if i < r.len() {
                assert(s[i] == r[i]);
                assert(rest.contains(r[i]));
                let j = choose|j: int| 0 <= j < rest.len() && rest[j] == r[i];
                assert(bodies[j] == r[i]);
            } else {
                assert(s[i] == b);
                assert(bodies[bodies.len() - 1] == b);
            }
        }
    }
}

/// A selection of valid bodies is valid and weighs no more than the whole.
pub proof fn lemma_select_valid(bodies: Seq<Body>, region: Region, q: Quadrant)
    requires
        all_valid(bodies),
    ensures
        all_valid(select(bodies, region, q)),
        0 <= total_mass(select(bodies, region, q)) <= total_mass(bodies),
{
    lemma_select(bodies, region);
    lemma_total_mass_nonnegative(select(bodies, region, Quadrant::NW));
    lemma_total_mass_nonnegative(select(bodies, region, Quadrant::NE));
    lemma_total_mass_nonnegative(select(bodies, region, Quadrant::SW));
    lemma_total_mass_nonnegative(select(bodies, region, Quadrant::SE));
    let s = select(bodies, region, q);
    assert forall|i: int| 0 <= i < s.len() implies (#[trigger] s[i]).valid() by {
        assert(bodies.contains(s[i]));
    }
}

/// The tree of a sequence of bodies over a region.
///
/// No body gives `Empty`, one body a `Leaf`.  Two or more bodies are divided
/// among the four quadrants of the region and each part is built over its
/// quadrant; where neither side of the region can be cut in two any more,
/// the bodies stay together in a `Cluster`.
pub open spec fn build(bodies: Seq<Body>, region: Region) -> TreeView
    decreases region.width() + region.height(),
{
    if bodies.len() == 0 {
        TreeView::Empty
    } else if bodies.len() == 1 {
        TreeView::Leaf { body: bodies[0] }
    } else if !region.valid() || !region.spec_can_split() {
        TreeView::Cluster { members: bodies, summary: Summary::of(bodies) }
    } else {
        TreeView::Internal {
            summary: Summary::of(bodies),
            nw: Box::new(
                build(select(bodies, region, Quadrant::NW), region.spec_child(Quadrant::NW)),
            ),
            ne: Box::new(
                build(select(bodies, region, Quadrant::NE), region.spec_child(Quadrant::NE)),
            ),
            sw: Box::new(
                build(select(bodies, region, Quadrant::SW), region.spec_child(Quadrant::SW)),
            ),
            se: Box::new(
                build(select(bodies, region, Quadrant::SE), region.spec_child(Quadrant::SE)),
            ),
        }
    }
}

/// The summary at the root of a built tree is the summary of its bodies.
pub proof fn lemma_build_summary(bodies: Seq<Body>, region: Region)
    requires
        all_valid(bodies),
        total_mass(bodies) <= MASS_LIMIT,
    ensures
        build(bodies, region).summary() == Summary::of(bodies),
        build(bodies, region).summary().valid(),
        build(bodies, region).summary().combined_mass == total_mass(bodies),
        build(bodies, region).summary().moment_x == moment_x(bodies),
        build(bodies, region).summary().moment_y == moment_y(bodies),
{
    Summary::lemma_of_valid(bodies);
    if bodies.len() == 0 {
    } else if bodies.len() == 1 {
        assert(bodies =~= seq![bodies[0]]);
        Summary::lemma_of_body(bodies[0]);
    }
}

/// In a built tree the mass and the moments of every internal node are the
/// sums of those of its four children.
pub proof fn lemma_build_additive(bodies: Seq<Body>, region: Region)
    requires
        all_valid(bodies),
        total_mass(bodies) <= MASS_LIMIT,
    ensures
        build(bodies, region).additive(),
    decreases region.width() + region.height(),
{
    Summary::lemma_of_valid(bodies);
    if bodies.len() == 0 {
    } else if bodies.len() == 1 {
        assert(bodies[0].valid());
    } else if !region.valid() || !region.spec_can_split() {
    } else {
        let a = select(bodies, region, Quadrant::NW);
        let b = select(bodies, region, Quadrant::NE);
        let c = select(bodies, region, Quadrant::SW);
        let d = select(bodies, region, Quadrant::SE);
        lemma_select(bodies, region);
        lemma_select_valid(bodies, region, Quadrant::NW);
        lemma_select_valid(bodies, region, Quadrant::NE);
        lemma_select_valid(bodies, region, Quadrant::SW);
        lemma_select_valid(bodies, region, Quadrant::SE);
        region.lemma_child(Quadrant::NW);
        region.lemma_child(Quadrant::NE);
        region.lemma_child(Quadrant::SW);
        region.lemma_child(Quadrant::SE);
        lemma_build_additive(a, region.spec_child(Quadrant::NW));
        lemma_build_additive(b, region.spec_child(Quadrant::NE));
        lemma_build_additive(c, region.spec_child(Quadrant::SW));
        lemma_build_additive(d, region.spec_child(Quadrant::SE));
        lemma_build_summary(a, region.spec_child(Quadrant::NW));
        lemma_build_summary(b, region.spec_child(Quadrant::NE));
        lemma_build_summary(c, region.spec_child(Quadrant::SW));
        lemma_build_summary(d, region.spec_child(Quadrant::SE));
    }
}

/// The bodies of a region that it assigns to a quadrant lie in that
/// quadrant.
pub proof fn lemma_select_placed(bodies: Seq<Body>, region: Region, q: Quadrant)
    requires
        region.valid(),
        all_inside(bodies, region),
    ensures
        all_inside(select(bodies, region, q), region.spec_child(q)),
{
    lemma_select(bodies, region);
    region.lemma_child(q);
    let s = select(bodies, region, q);
    assert forall|i: int| 0 <= i < s.len() implies region.spec_child(q).spec_contains(
        (#[trigger] s[i]).position,
    ) by {
        assert(bodies.contains(s[i]));
        let j = choose|j: int| 0 <= j < bodies.len() && bodies[j] == s[i];
        assert(region.spec_contains(bodies[j].position));
        assert(region.spec_quadrant_of(s[i].position) == q);
    }
}

/// A tree built from bodies of the region has every body in its place:
/// each leaf in its own part of the region, and in a cluster only bodies
/// that share one position.
pub proof fn lemma_build_placed(bodies: Seq<Body>, region: Region)
    requires
        region.valid(),
        all_inside(bodies, region),
    ensures
        build(bodies, region).placed(region),
    decreases region.width() + region.height(),
{
    if bodies.len() == 0 {
    } else if bodies.len() == 1 {
        assert(region.spec_contains(bodies[0].position));
    } else if !region.spec_can_split() {
        assert forall|i: int| 0 <= i < bodies.len() implies (#[trigger] bodies[i]).position == (
        Vec2 { x: region.x0, y: region.y0 }) by {
            assert(region.spec_contains(bodies[i].position));
        }
    } else {
        region.lemma_child(Quadrant::NW);
        region.lemma_child(Quadrant::NE);
        region.lemma_child(Quadrant::SW);
        region.lemma_child(Quadrant::SE);
        lemma_select_placed(bodies, region, Quadrant::NW);
        lemma_select_placed(bodies, region, Quadrant::NE);
        lemma_select_placed(bodies, region, Quadrant::SW);
        lemma_select_placed(bodies, region, Quadrant::SE);
        lemma_build_placed(select(bodies, region, Quadrant::NW), region.spec_child(Quadrant::NW));
        lemma_build_placed(select(bodies, region, Quadrant::NE), region.spec_child(Quadrant::NE));
        lemma_build_placed(select(bodies, region, Quadrant::SW), region.spec_child(Quadrant::SW));
        lemma_build_placed(select(bodies, region, Quadrant::SE), region.spec_child(Quadrant::SE));
    }
}

/// The four selections of a sequence hold each of its bodies exactly once.
pub proof fn lemma_select_multiset(bodies: Seq<Body>, region: Region)
    ensures
        select(bodies, region, Quadrant::NW).to_multiset().add(
            select(bodies, region, Quadrant::NE).to_multiset(),
        ).add(select(bodies, region, Quadrant::SW).to_multiset()).add(
            select(bodies, region, Quadrant::SE).to_multiset(),
        ) =~= bodies.to_multiset(),
    decreases bodies.len(),
{
    broadcast use vstd::multiset::group_multiset_axioms;

    if bodies.len() == 0 {
        assert(bodies.to_multiset() =~= Multiset::<Body>::empty()) by {
            bodies.to_multiset_ensures();
        }
        assert(select(bodies, region, Quadrant::NW) =~= bodies);
        assert(select(bodies, region, Quadrant::NE) =~= bodies);
        assert(select(bodies, region, Quadrant::SW) =~= bodies);
        assert(select(bodies, region, Quadrant::SE) =~= bodies);
    } else {
        let rest = bodies.drop_last();
        let b = bodies.last();
        lemma_select_multiset(rest, region);
        assert(bodies =~= rest.push(b));
        to_multiset_build(rest, b);
        to_multiset_build(select(rest, region, Quadrant::NW), b);
        to_multiset_build(select(rest, region, Quadrant::NE), b);
        to_multiset_build(select(rest, region, Quadrant::SW), b);
        to_multiset_build(select(rest, region, Quadrant::SE), b);
    }
}

/// Every body of the sequence is in exactly one leaf or cluster of the
/// built tree: the bodies of the tree are those of the sequence, each as
/// often as it stands there.
pub proof fn lemma_build_leaves(bodies: Seq<Body>, region: Region)
    ensures
        build(bodies, region).leaves().to_multiset() =~= bodies.to_multiset(),
        build(bodies, region).leaves().len() == bodies.len(),
    decreases region.width() + region.height(),
{
    broadcast use vstd::multiset::group_multiset_axioms;

    if bodies.len() == 0 {
        assert(build(bodies, region).leaves() =~= bodies);
    } else if bodies.len() == 1 {
        assert(build(bodies, region).leaves() =~= bodies);
    } else if !region.valid() || !region.spec_can_split() {
    } else {
        let a = select(bodies, region, Quadrant::NW);
        let b = select(bodies, region, Quadrant::NE);
        let c = select(bodies, region, Quadrant::SW);
        let d = select(bodies, region, Quadrant::SE);
        let ra = region.spec_child(Quadrant::NW);
        let rb = region.spec_child(Quadrant::NE);
        let rc = region.spec_child(Quadrant::SW);
        let rd = region.spec_child(Quadrant::SE);
        region.lemma_child(Quadrant::NW);
        region.lemma_child(Quadrant::NE);
        region.lemma_child(Quadrant::SW);
        region.lemma_child(Quadrant::SE);
        lemma_build_leaves(a, ra);
        lemma_build_leaves(b, rb);
        lemma_build_leaves(c, rc);
        lemma_build_leaves(d, rd);
        lemma_select(bodies, region);
        lemma_select_multiset(bodies, region);
        let (la, lb, lc, ld) = (
            build(a, ra).leaves(),
            build(b, rb).leaves(),
            build(c, rc).leaves(),
            build(d, rd).leaves(),
        );
        lemma_multiset_commutative(la, lb);
        lemma_multiset_commutative(la + lb, lc);
        lemma_multiset_commutative(la + lb + lc, ld);
        assert(build(bodies, region).leaves() == la + lb + lc + ld);
    }
}

/// Building twice from the same bodies over the same region gives the same
/// tree, with the same mass and the same centre of gravity at every node.
pub proof fn lemma_build_deterministic(
    first: Quadtree,
    second: Quadtree,
    bodies: Seq<Body>,
    region: Region,
)
    requires
        first@ == build(bodies, region),
        second@ == build(bodies, region),
    ensures
        first@ == second@,
        first@.summary().combined_mass == second@.summary().combined_mass,
        first@.summary().center_of_gravity == second@.summary().center_of_gravity,
{
}

/// Divides the bodies among the four quadrants of the region, keeping their
/// order: north-west, north-east, south-west, south-east.
pub fn split_bodies(bodies: &Vec<Body>, region: &Region) -> (parts: (
    Vec<Body>,
    Vec<Body>,
    Vec<Body>,
    Vec<Body>,
))
    requires
        region.valid(),
    ensures
        parts.0@ == select(bodies@, *region, Quadrant::NW),
        parts.1@ == select(bodies@, *region, Quadrant::NE),
        parts.2@ == select(bodies@, *region, Quadrant::SW),
        parts.3@ == select(bodies@, *region, Quadrant::SE),
{
    let mut nw: Vec<Body> = Vec::new();
    let mut ne: Vec<Body> = Vec::new();
    let mut sw: Vec<Body> = Vec::new();
    let mut se: Vec<Body> = Vec::new();
    let mut i: usize = 0;
    while i < bodies.len()
        invariant
            i <= bodies.len(),
            region.valid(),
            nw@ == select(bodies@.take(i as int), *region, Quadrant::NW),
            ne@ == select(bodies@.take(i as int), *region, Quadrant::NE),
            sw@ == select(bodies@.take(i as int), *region, Quadrant::SW),
            se@ == select(bodies@.take(i as int), *region, Quadrant::SE),
        decreases bodies.len() - i,
    {
        let b = bodies[i];
        proof {
            assert(bodies@.take(i + 1).drop_last() =~= bodies@.take(i as int));
            assert(bodies@.take(i + 1).last() == b);
        }
        match region.quadrant_of(b.position) {
            Quadrant::NW => nw.push(b),
            Quadrant::NE => ne.push(b),
            Quadrant::SW => sw.push(b),
            Quadrant::SE => se.push(b),
        }
        i += 1;
    }
    proof {
        assert(bodies@.take(i as int) =~= bodies@);
    }
    (nw, ne, sw, se)
}

/// A copy of the bodies.
fn copy_bodies(bodies: &Vec<Body>) -> (copy: Vec<Body>)
    ensures
        copy@ == bodies@,
{
    let mut copy: Vec<Body> = Vec::new();
    let mut i: usize = 0;
    while i < bodies.len()
        invariant
            i <= bodies.len(),
            copy@ == bodies@.take(i as int),
        decreases bodies.len() - i,
    {
        copy.push(bodies[i]);
        proof {
            assert(bodies@.take(i + 1) =~= bodies@.take(i as int).push(bodies@[i as int]));
        }
        i += 1;
    }
    proof {
        assert(bodies@.take(i as int) =~= bodies@);
    }
    copy
}

impl Quadtree {
    /// The aggregate that stands for the whole tree.
    pub fn summary(&self) -> (s: Summary)
        requires
            self@.additive(),
        ensures
            s == self@.summary(),
            s.valid(),
    {
        match self {
            Quadtree::Empty => Summary::empty(),
            Quadtree::Leaf { body } => Summary::of_body(body),
            Quadtree::Cluster { members, summary } => {
                proof {
                    Summary::lemma_of_valid(members@);
                }
                *summary
            },
            Quadtree::InternalNode { summary, .. } => *summary,
        }
    }

    /// Checks the sums of the tree: tells whether at every internal node the
    /// mass and the moments are the sums of those of the children, the
    /// summary of every cluster is that of its members, and every body and
    /// every summary is valid.
    pub fn is_additive(&self) -> (ok: bool)
        ensures
            ok == self@.additive(),
        decreases self,
    {
        match self {
            Quadtree::Empty => true,
            Quadtree::Leaf { body } => body.is_valid(),
            Quadtree::Cluster { members, summary } => {
                if !check_bodies(members) {
                    return false;
                }
                let computed = summarize(members);
                computed == *summary
            },
            Quadtree::InternalNode { summary, nw, ne, sw, se } => {
                if !nw.is_additive() || !ne.is_additive() || !sw.is_additive() || !se.is_additive() {
                    return false;
                }
                let a = nw.summary();
                let b = ne.summary();
                let c = sw.summary();
                let d = se.summary();
                if a.combined_mass > MASS_LIMIT - b.combined_mass || c.combined_mass > MASS_LIMIT
                    - d.combined_mass || a.combined_mass + b.combined_mass > MASS_LIMIT - (
                c.combined_mass + d.combined_mass) {
                    return false;
                }
                proof {
                    a.lemma_valid_bounds();
                    b.lemma_valid_bounds();
                    c.lemma_valid_bounds();
                    d.lemma_valid_bounds();
                }
                let computed = Summary::combine(&a, &b, &c, &d);
                computed == *summary
            },
        }
    }
}

/// Builds the tree of the bodies over the region.
///
/// The bodies are not changed.  The region only says where to cut: a body
/// outside of it is assigned to a quadrant by the same comparisons as one
/// inside.
pub fn construct_tree(bodies: &Vec<Body>, region: Region) -> (tree: Quadtree)
    requires
        all_valid(bodies@),
        total_mass(bodies@) <= MASS_LIMIT,
        region.valid(),
    ensures
        tree@ == build(bodies@, region),
        tree@.additive(),
        tree@.summary() == Summary::of(bodies@),
        tree@.leaves().to_multiset() == bodies@.to_multiset(),
        all_inside(bodies@, region) ==> tree@.placed(region),
    decreases region.width() + region.height(),
{
    proof {
        lemma_build_additive(bodies@, region);
        lemma_build_summary(bodies@, region);
        lemma_build_leaves(bodies@, region);
        if all_inside(bodies@, region) {
            lemma_build_placed(bodies@, region);
        }
    }
    if bodies.len() == 0 {
        Quadtree::Empty
    } else if bodies.len() == 1 {
        Quadtree::Leaf { body: bodies[0] }
    } else if !region.can_split() {
        Quadtree::Cluster { members: copy_bodies(bodies), summary: summarize(bodies) }
    } else {
        let (a, b, c, d) = split_bodies(bodies, &region);
        proof {
            lemma_select(bodies@, region);
            lemma_select_valid(bodies@, region, Quadrant::NW);
            lemma_select_valid(bodies@, region, Quadrant::NE);
            lemma_select_valid(bodies@, region, Quadrant::SW);
            lemma_select_valid(bodies@, region, Quadrant::SE);
            region.lemma_child(Quadrant::NW);
            region.lemma_child(Quadrant::NE);
            region.lemma_child(Quadrant::SW);
            region.lemma_child(Quadrant::SE);
        }
        let nw = construct_tree(&a, region.child(Quadrant::NW));
        let ne = construct_tree(&b, region.child(Quadrant::NE));
        let sw = construct_tree(&c, region.child(Quadrant::SW));
        let se = construct_tree(&d, region.child(Quadrant::SE));
        proof {
            Summary::lemma_of_valid(a@);
            Summary::lemma_of_valid(b@);
            Summary::lemma_of_valid(c@);
            Summary::lemma_of_valid(d@);
        }
        let summary = Summary::combine(&nw.summary(), &ne.summary(), &sw.summary(), &se.summary());
        Quadtree::InternalNode {
            summary,
            nw: Box::new(nw),
            ne: Box::new(ne),
            sw: Box::new(sw),
            se: Box::new(se),
        }
    }
}

} // verus!
