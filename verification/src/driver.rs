//! The frame driver: one simulation step is a walk through the phases of a
//! frame.

use vstd::prelude::*;
use vstd::arithmetic::div_mod::{lemma_fundamental_div_mod, lemma_mod_bound};
use crate::body::{all_valid, indexed, lemma_total_mass_monotone, total_mass, Body, COORD_LIMIT, MASS_LIMIT};
use crate::config::{Config, ConfigError, STRENGTH_LIMIT};
use crate::frame::{accelerations, all_can_integrate, compute_accelerations, integrate_all, integrated, lemma_integrated_valid};
use crate::momentum::{lemma_momentum_step, lemma_net_force_bounded, momentum_x, momentum_y, net_force_x, net_force_y};
use crate::gravity::lemma_approx_gravity_bounded;
use crate::integrator::can_integrate;
use crate::region::{bounding_region, lemma_bounding_region, spec_bounding_region};
use crate::tree::{build, construct_tree, lemma_build_additive, lemma_build_leaves, lemma_build_placed, lemma_build_summary, Quadtree, TreeView};
use crate::vector::{Vec2, Vector};

verus! {

/// What the driver is doing.
#[derive(Clone, Copy, Debug, PartialEq, Eq, Structural)]
pub enum Phase {
    /// Between two frames.
    Idle,
    /// About to build the tree of the current positions.
    BuildingIndex,
    /// The tree is built; about to gather the accelerations from it.
    ApproximatingForces,
    /// The accelerations are gathered; about to integrate.
    Integrating,
}

/// How a frame ended.
#[derive(Clone, Copy, Debug, PartialEq, Eq, Structural)]
pub enum StepOutcome {
    /// Every body took its step.
    Advanced,
    /// The step of `body` would have taken it off the supported part of the
    /// lattice, so the store was left as it was.
    Frozen { body: usize },
}

/// Why a store was refused.
#[derive(Clone, Copy, Debug, PartialEq, Eq, Structural)]
pub enum SetupError {
    /// The configuration is not valid.
    Config(ConfigError),
    /// The number of bodies is not the configured one.
    BodyCount,
    /// The body at `index` is not valid or its `id` is not `index`.
    Body { index: usize },
    /// The gravitational constant times the mass of all bodies is beyond
    /// `STRENGTH_LIMIT`.
    Strength,
}

/// The phase that follows a phase.
pub open spec fn following(phase: Phase) -> Phase {
    match phase {
        Phase::Idle => Phase::BuildingIndex,
        Phase::BuildingIndex => Phase::ApproximatingForces,
        Phase::ApproximatingForces => Phase::Integrating,
        Phase::Integrating => Phase::Idle,
    }
}

/// The number of phases from a phase to the end of its frame.
pub open spec fn phases_left(phase: Phase) -> nat {
    match phase {
        Phase::Idle => 4,
        Phase::BuildingIndex => 3,
        Phase::ApproximatingForces => 2,
        Phase::Integrating => 1,
    }
}

/// The body at index `i` is valid and its `id` is `i`.
pub open spec fn body_in_place(bodies: Seq<Body>, i: int) -> bool {
    bodies[i].valid() && bodies[i].id == i
}

/// A store that a simulation can run on.
pub open spec fn store_valid(bodies: Seq<Body>, config: Config) -> bool {
    &&& config.valid()
    &&& bodies.len() == config.body_count
    &&& forall|i: int| 0 <= i < bodies.len() ==> body_in_place(bodies, i)
    &&& config.gravitational_constant * total_mass(bodies) <= STRENGTH_LIMIT
}

/// The tree of a frame: built over the bounding region of the bodies.
pub open spec fn frame_tree(bodies: Seq<Body>) -> TreeView {
    build(bodies, spec_bounding_region(bodies))
}

/// The node size of the root of a frame's tree: the side of the bounding
/// region.
pub open spec fn frame_size(bodies: Seq<Body>) -> int {
    spec_bounding_region(bodies).spec_side()
}

/// The accelerations of a frame.
pub open spec fn frame_accelerations(bodies: Seq<Body>, config: Config) -> Seq<Vec2> {
    accelerations(bodies, frame_tree(bodies), frame_size(bodies), config)
}

/// Every body can take the step of this frame.
pub open spec fn frame_advances(bodies: Seq<Body>, config: Config) -> bool {
    all_can_integrate(
        bodies,
        frame_accelerations(bodies, config),
        config.timestep as int,
        bodies.len() as int,
    )
}

/// The store after one frame: every body integrated under the acceleration
/// that the tree gives it, or, where a body cannot take its step, the store
/// unchanged.
pub open spec fn next_store(bodies: Seq<Body>, config: Config) -> Seq<Body> {
    if frame_advances(bodies, config) {
        integrated(bodies, frame_accelerations(bodies, config), config.timestep as int)
    } else {
        bodies
    }
}

/// How the frame of a store ends.
pub open spec fn outcome_matches(bodies: Seq<Body>, config: Config, outcome: StepOutcome) -> bool {
    match outcome {
        StepOutcome::Advanced => frame_advances(bodies, config),
        StepOutcome::Frozen { body } => {
            &&& body < bodies.len()
            &&& all_can_integrate(
                bodies,
                frame_accelerations(bodies, config),
                config.timestep as int,
                body as int,
            )
            &&& !can_integrate(
                bodies[body as int],
                frame_accelerations(bodies, config)[body as int]@,
                config.timestep as int,
            )
        },
    }
}

/// What a valid store gives the phases of a frame: the bodies are valid and
/// within the mass limit, and the tree over their bounding region holds
/// every body exactly once and in its place, has their mass, and sums up at
/// every node.
pub proof fn lemma_store(bodies: Seq<Body>, config: Config)
    requires
        store_valid(bodies, config),
    ensures
        all_valid(bodies),
        indexed(bodies),
        total_mass(bodies) <= MASS_LIMIT,
        spec_bounding_region(bodies).valid(),
        frame_tree(bodies).additive(),
        frame_tree(bodies).placed(spec_bounding_region(bodies)),
        frame_tree(bodies).leaves().to_multiset() == bodies.to_multiset(),
        frame_tree(bodies).summary().combined_mass == total_mass(bodies),
        0 <= frame_size(bodies) <= 2 * COORD_LIMIT + 1,
{
    assert forall|i: int| 0 <= i < bodies.len() implies (#[trigger] bodies[i]).valid()
        && bodies[i].id == i by {
        assert(body_in_place(bodies, i));
    }
    lemma_total_mass_monotone(bodies, 0);
    let g = config.gravitational_constant as int;
    let t = total_mass(bodies);
    assert(t <= g * t) by (nonlinear_arith)
        requires
            g >= 1,
            t >= 0,
    ;
    lemma_bounding_region(bodies);
    lemma_build_additive(bodies, spec_bounding_region(bodies));
    lemma_build_summary(bodies, spec_bounding_region(bodies));
    lemma_build_placed(bodies, spec_bounding_region(bodies));
    lemma_build_leaves(bodies, spec_bounding_region(bodies));
}

/// A valid store stays valid over a frame.
pub proof fn lemma_next_store_valid(bodies: Seq<Body>, config: Config)
    requires
        store_valid(bodies, config),
    ensures
        store_valid(next_store(bodies, config), config),
{
    if frame_advances(bodies, config) {
        let accs = frame_accelerations(bodies, config);
        assert(all_valid(bodies)) by {
            assert forall|i: int| 0 <= i < bodies.len() implies (#[trigger] bodies[i]).valid() by {
                assert(body_in_place(bodies, i));
            }
        }
        assert(indexed(bodies)) by {
            assert forall|i: int| 0 <= i < bodies.len() implies (#[trigger] bodies[i]).id == i by {
                assert(body_in_place(bodies, i));
            }
        }
        lemma_integrated_valid(bodies, accs, config.timestep as int);
        let next = next_store(bodies, config);
        assert forall|i: int| 0 <= i < next.len() implies body_in_place(next, i) by {
            assert(next[i].valid());
            assert(next[i].id == i);
        }
    }
}

/// The most that the total momentum can drift over one frame: the time
/// step times the gravitational constant times the square of the total
/// mass.
pub open spec fn drift_limit(bodies: Seq<Body>, config: Config) -> int {
    config.timestep * (total_mass(bodies) * (config.gravitational_constant * total_mass(bodies)))
}

/// Over one frame the total momentum of a valid store drifts by no more
/// than `drift_limit`: an approximation can unbalance the forces, but only
/// so far.
pub proof fn lemma_momentum_drift(bodies: Seq<Body>, config: Config)
    requires
        store_valid(bodies, config),
    ensures
        -drift_limit(bodies, config) <= momentum_x(next_store(bodies, config)) - momentum_x(bodies)
            <= drift_limit(bodies, config),
        -drift_limit(bodies, config) <= momentum_y(next_store(bodies, config)) - momentum_y(bodies)
            <= drift_limit(bodies, config),
{
    let dt = config.timestep as int;
    let g = config.gravitational_constant as int;
    let t = total_mass(bodies);
    let bound = g * t;
    let limit = drift_limit(bodies, config);
    lemma_store(bodies, config);
    assert(bound >= 0 && t * bound >= 0 && dt * (t * bound) >= 0) by (nonlinear_arith)
        requires
            g >= 0,
            t >= 0,
            dt >= 0,
            bound == g * t,
    ;
    assert(limit == dt * (t * bound));
    if frame_advances(bodies, config) {
        let accs = frame_accelerations(bodies, config);
        assert forall|i: int| 0 <= i < bodies.len() implies (#[trigger] accs[i])@.within(
            bound,
        ) by {
            lemma_approx_gravity_bounded(
                bodies[i],
                frame_tree(bodies),
                frame_size(bodies),
                config,
            );
        }
        lemma_net_force_bounded(bodies, accs, bound);
        lemma_momentum_step(bodies, accs, dt);
        let fx = net_force_x(bodies, accs);
        let fy = net_force_y(bodies, accs);
        assert(-(dt * (t * bound)) <= fx * dt <= dt * (t * bound) && -(dt * (t * bound)) <= fy
            * dt <= dt * (t * bound)) by (nonlinear_arith)
            requires
                dt >= 0,
                -t * bound <= fx <= t * bound,
                -t * bound <= fy <= t * bound,
        ;
    }
}

/// A store of one body: the tree is the leaf of that body, which does not
/// pull itself, so the body is not accelerated and keeps its velocity; and a
/// body at rest stays where it is.
pub proof fn lemma_single_body(bodies: Seq<Body>, config: Config)
    requires
        store_valid(bodies, config),
        bodies.len() == 1,
    ensures
        frame_accelerations(bodies, config) == seq![Vec2 { x: 0, y: 0 }],
        frame_advances(bodies, config) ==> next_store(bodies, config)[0].velocity
            == bodies[0].velocity,
        bodies[0].velocity == (Vec2 { x: 0, y: 0 }) ==> frame_advances(bodies, config)
            && next_store(bodies, config) == seq![
            Body { acceleration: Vec2 { x: 0, y: 0 }, ..bodies[0] },
        ],
{
    let dt = config.timestep as int;
    let accs = frame_accelerations(bodies, config);
    assert(accs =~= seq![Vec2 { x: 0, y: 0 }]);
    assert(body_in_place(bodies, 0));
    let b = bodies[0];
    assert(0 * dt == 0) by (nonlinear_arith);
    assert(accs[0]@.times(dt) == Vector::zero());
    if frame_advances(bodies, config) {
        assert(can_integrate(bodies[0], accs[0]@, dt));
    }
    if b.velocity == (Vec2 { x: 0, y: 0 }) {
        assert(can_integrate(bodies[0], accs[0]@, dt));
        assert(next_store(bodies, config) =~= seq![
            Body { acceleration: Vec2 { x: 0, y: 0 }, ..bodies[0] },
        ]);
    }
}

/// The bodies, the parameters and the phase of a run, with what one phase
/// hands to the next.
pub struct Simulation {
    config: Config,
    bodies: Vec<Body>,
    phase: Phase,
    tree: Quadtree,
    node_size: u64,
    pending: Vec<Vec2>,
}

impl Simulation {
    /// The bodies.
    pub closed spec fn store(&self) -> Seq<Body> {
        self.bodies@
    }

    /// The parameters.
    pub closed spec fn parameters(&self) -> Config {
        self.config
    }

    /// The phase.
    pub closed spec fn current_phase(&self) -> Phase {
        self.phase
    }

    /// The store is valid, and what an earlier phase of the frame has left
    /// is what that phase computes from the store.
    pub closed spec fn valid(&self) -> bool {
        &&& store_valid(self.bodies@, self.config)
        &&& match self.phase {
            Phase::Idle => true,
            Phase::BuildingIndex => true,
            Phase::ApproximatingForces => self.tree@ == frame_tree(self.bodies@) && self.node_size
                == frame_size(self.bodies@),
            Phase::Integrating => self.pending@ == frame_accelerations(self.bodies@, self.config),
        }
    }

    /// A valid simulation holds a valid store.
    pub proof fn lemma_valid(&self)
        requires
            self.valid(),
        ensures
            store_valid(self.store(), self.parameters()),
    {
    }

    /// A simulation of the bodies under the configuration, between two
    /// frames.  The store is refused where it is not valid; the error names
    /// the first reason, in the order of the variants of `SetupError`.
    pub fn new(config: Config, bodies: Vec<Body>) -> (r: Result<Simulation, SetupError>)
        ensures
            match r {
                Ok(sim) => store_valid(bodies@, config) && sim.valid() && sim.store() == bodies@
                    && sim.parameters() == config && sim.current_phase() == Phase::Idle,
                Err(SetupError::Config(e)) => !config.valid() && config.spec_fault() == Some(e),
                Err(SetupError::BodyCount) => config.valid() && bodies@.len() != config.body_count,
                Err(SetupError::Body { index }) => {
                    &&& config.valid()
                    &&& bodies@.len() == config.body_count
                    &&& index < bodies@.len()
                    &&& !body_in_place(bodies@, index as int)
                    &&& forall|j: int| 0 <= j < index ==> body_in_place(bodies@, j)
                },
                Err(SetupError::Strength) => {
                    &&& config.valid()
                    &&& bodies@.len() == config.body_count
                    &&& forall|j: int| 0 <= j < bodies@.len() ==> body_in_place(bodies@, j)
                    &&& config.gravitational_constant * total_mass(bodies@) > STRENGTH_LIMIT
                },
            },
    {
        match config.fault() {
            Some(e) => {
                return Err(SetupError::Config(e));
            },
            None => {},
        }
        if bodies.len() != config.body_count {
            return Err(SetupError::BodyCount);
        }
        let g: u64 = config.gravitational_constant;
        let budget: u64 = STRENGTH_LIMIT / g;
        let mut mass: u64 = 0;
        let mut i: usize = 0;
        while i < bodies.len()
            invariant
                i <= bodies.len(),
                config.valid(),
                bodies@.len() == config.body_count,
                g == config.gravitational_constant,
                budget == STRENGTH_LIMIT / g,
                forall|j: int| 0 <= j < i ==> body_in_place(bodies@, j),
                mass == total_mass(bodies@.take(i as int)),
                mass <= budget,
            decreases bodies.len() - i,
        {
            let b = bodies[i];
            if !b.is_valid() || b.id != i {
                return Err(SetupError::Body { index: i });
            }
            proof {
                assert(bodies@.take(i + 1).drop_last() =~= bodies@.take(i as int));
                assert(bodies@.take(i + 1).last() == b);
            }
            if b.mass > budget - mass {
                // The total is beyond the budget already; the remaining
                // bodies are still checked, so that the error is the first.
                let mut k: usize = i + 1;
                while k < bodies.len()
                    invariant
                        i < k <= bodies.len(),
                        config.valid(),
                        bodies@.len() == config.body_count,
                        forall|j: int| 0 <= j < k ==> body_in_place(bodies@, j),
                    decreases bodies.len() - k,
                {
                    let c = bodies[k];
                    if !c.is_valid() || c.id != k {
                        return Err(SetupError::Body { index: k });
                    }
                    k += 1;
                }
                proof {
                    lemma_total_mass_monotone(bodies@, i + 1);
                    lemma_over_budget(g as int, total_mass(bodies@));
                }
                return Err(SetupError::Strength);
            }
            mass = mass + b.mass;
            i += 1;
        }
        proof {
            assert(bodies@.take(i as int) =~= bodies@);
            lemma_within_budget(g as int, mass as int);
        }
        Ok(
            Simulation {
                config,
                bodies,
                phase: Phase::Idle,
                tree: Quadtree::Empty,
                node_size: 0,
                pending: Vec::new(),
            },
        )
    }

    /// Does the work of the current phase and moves to the next one:
    /// from `Idle` a frame begins; from `BuildingIndex` the tree is built
    /// over the bounding region of the bodies; from `ApproximatingForces`
    /// the acceleration of every body is gathered from the tree; from
    /// `Integrating` every body takes its step, or, where one cannot, the
    /// store stays as it was.  Only the last changes the store, and only it
    /// returns an outcome.
    pub fn advance(&mut self) -> (done: Option<StepOutcome>)
        requires
            old(self).valid(),
        ensures
            final(self).valid(),
            final(self).parameters() == old(self).parameters(),
            final(self).current_phase() == following(old(self).current_phase()),
            match old(self).current_phase() {
                Phase::Integrating => {
                    &&& final(self).store() == next_store(
                        old(self).store(),
                        old(self).parameters(),
                    )
                    &&& done.is_some()
                    &&& outcome_matches(old(self).store(), old(self).parameters(), done.unwrap())
                },
                _ => final(self).store() == old(self).store() && done.is_none(),
            },
    {
        proof {
            lemma_store(self.bodies@, self.config);
        }
        match self.phase {
            Phase::Idle => {
                self.phase = Phase::BuildingIndex;
                None
            },
            Phase::BuildingIndex => {
                let region = bounding_region(&self.bodies);
                let tree = construct_tree(&self.bodies, region);
                self.node_size = region.side();
                self.tree = tree;
                self.phase = Phase::ApproximatingForces;
                None
            },
            Phase::ApproximatingForces => {
                let gathered = compute_accelerations(
                    &self.bodies,
                    &self.tree,
                    self.node_size,
                    &self.config,
                );
                self.pending = gathered;
                self.phase = Phase::Integrating;
                None
            },
            Phase::Integrating => {
                let r = integrate_all(&self.bodies, &self.pending, self.config.timestep);
                proof {
                    lemma_next_store_valid(self.bodies@, self.config);
                }
                self.phase = Phase::Idle;
                self.tree = Quadtree::Empty;
                self.pending = Vec::new();
                match r {
                    Ok(next) => {
                        self.bodies = next;
                        Some(StepOutcome::Advanced)
                    },
                    Err(i) => Some(StepOutcome::Frozen { body: i }),
                }
            },
        }
    }

    /// Runs the frame to its end: builds the tree, gathers the
    /// accelerations and integrates.  Either every body takes its step or
    /// the store stays as it was.
    pub fn step(&mut self) -> (outcome: StepOutcome)
        requires
            old(self).valid(),
        ensures
            final(self).valid(),
            final(self).parameters() == old(self).parameters(),
            final(self).current_phase() == Phase::Idle,
            final(self).store() == next_store(old(self).store(), old(self).parameters()),
            outcome_matches(old(self).store(), old(self).parameters(), outcome),
    {
        loop
            invariant
                self.valid(),
                self.parameters() == old(self).parameters(),
                self.store() == old(self).store(),
            decreases phases_left(self.current_phase()),
        {
            match self.advance() {
                Some(outcome) => {
                    return outcome;
                },
                None => {},
            }
        }
    }

    /// The bodies, for reading.
    pub fn bodies(&self) -> (b: &Vec<Body>)
        ensures
            b@ == self.store(),
    {
        &self.bodies
    }

    /// The positions of the bodies, index by index: what a display needs.
    pub fn positions(&self) -> (out: Vec<Vec2>)
        ensures
            out@ == self.store().map_values(|b: Body| b.position),
    {
        let mut out: Vec<Vec2> = Vec::new();
        let mut i: usize = 0;
        while i < self.bodies.len()
            invariant
                i <= self.bodies.len(),
                out@.len() == i,
                forall|k: int| 0 <= k < i ==> out@[k] == self.bodies@[k].position,
            decreases self.bodies.len() - i,
        {
            out.push(self.bodies[i].position);
            i += 1;
        }
        assert(out@ =~= self.bodies@.map_values(|b: Body| b.position));
        out
    }

    /// The parameters.
    pub fn config(&self) -> (c: Config)
        ensures
            c == self.parameters(),
    {
        self.config
    }

    /// The phase.
    pub fn phase(&self) -> (p: Phase)
        ensures
            p == self.current_phase(),
    {
        self.phase
    }
}

/// A mass within `STRENGTH_LIMIT / g` has a strength within the limit.
proof fn lemma_within_budget(g: int, mass: int)
    requires
        g >= 1,
        0 <= mass <= STRENGTH_LIMIT as int / g,
    ensures
        g * mass <= STRENGTH_LIMIT,
{
    let l = STRENGTH_LIMIT as int;
    lemma_fundamental_div_mod(l, g);
    lemma_mod_bound(l, g);
    assert(g * mass <= g * (l / g)) by (nonlinear_arith)
        requires
            g >= 1,
            mass <= l / g,
    ;
}

/// A mass beyond `STRENGTH_LIMIT / g` has a strength beyond the limit.
proof fn lemma_over_budget(g: int, mass: int)
    requires
        g >= 1,
        mass > STRENGTH_LIMIT as int / g,
    ensures
        g * mass > STRENGTH_LIMIT,
{
    let l = STRENGTH_LIMIT as int;
    lemma_fundamental_div_mod(l, g);
    lemma_mod_bound(l, g);
    assert(g * mass >= g * (l / g + 1)) by (nonlinear_arith)
        requires
            g >= 1,
            mass >= l / g + 1,
    ;
    assert(g * (l / g + 1) == g * (l / g) + g) by (nonlinear_arith);
}

} // verus!
