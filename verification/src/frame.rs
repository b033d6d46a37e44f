//! The two passes of a frame over the whole store: gathering the
//! accelerations, and integrating.

use vstd::prelude::*;
use crate::body::{all_valid, indexed, total_mass, Body};
use crate::config::{Config, STRENGTH_LIMIT};
use crate::gravity::{approx_gravity, direct_gravity, direct_gravity_sum, get_approx_gravity};
use crate::integrator::{advanced, can_integrate, integrate};
use crate::tree::{Quadtree, TreeView};
use crate::vector::Vec2;

verus! {

/// The acceleration of the body at index `i` due to the tree, as a machine
/// vector.
pub open spec fn acceleration_at(
    bodies: Seq<Body>,
    tree: TreeView,
    size: int,
    config: Config,
    i: int,
) -> Vec2 {
    Vec2 {
        x: approx_gravity(bodies[i], tree, size, config).x as i64,
        y: approx_gravity(bodies[i], tree, size, config).y as i64,
    }
}

/// The accelerations of all bodies due to the tree, index by index.
pub open spec fn accelerations(bodies: Seq<Body>, tree: TreeView, size: int, config: Config) -> Seq<
    Vec2,
> {
    Seq::new(bodies.len(), |i: int| acceleration_at(bodies, tree, size, config, i))
}

/// Every body before index `n` can take its step.
pub open spec fn all_can_integrate(bodies: Seq<Body>, accelerations: Seq<Vec2>, dt: int, n: int) -> bool {
    forall|i: int| 0 <= i < n ==> can_integrate(#[trigger] bodies[i], accelerations[i]@, dt)
}

/// The store after every body has taken its step.
pub open spec fn integrated(bodies: Seq<Body>, accelerations: Seq<Vec2>, dt: int) -> Seq<Body> {
    Seq::new(bodies.len(), |i: int| advanced(bodies[i], accelerations[i], dt))
}

/// Integration changes neither a mass nor an `id`, and leaves every body on
/// the supported part of the lattice.
pub proof fn lemma_integrated_valid(bodies: Seq<Body>, accelerations: Seq<Vec2>, dt: int)
    requires
        all_valid(bodies),
        accelerations.len() == bodies.len(),
        all_can_integrate(bodies, accelerations, dt, bodies.len() as int),
    ensures
        all_valid(integrated(bodies, accelerations, dt)),
        indexed(bodies) ==> indexed(integrated(bodies, accelerations, dt)),
        total_mass(integrated(bodies, accelerations, dt)) == total_mass(bodies),
{
    let next = integrated(bodies, accelerations, dt);
    assert forall|i: int| 0 <= i < next.len() implies (#[trigger] next[i]).valid() by {
        assert(bodies[i].valid());
        assert(can_integrate(bodies[i], accelerations[i]@, dt));
    }
    lemma_same_masses(bodies, next);
}

/// Two sequences with the same masses, index by index, weigh the same.
pub proof fn lemma_same_masses(a: Seq<Body>, b: Seq<Body>)
    requires
        a.len() == b.len(),
        forall|i: int| 0 <= i < a.len() ==> (#[trigger] a[i]).mass == b[i].mass,
    ensures
        total_mass(a) == total_mass(b),
    decreases a.len(),
{
    if a.len() > 0 {
        lemma_same_masses(a.drop_last(), b.drop_last());
    }
}

/// Gathers the acceleration of every body from the tree.  Neither the tree
/// nor the bodies are changed.
pub fn compute_accelerations(
    bodies: &Vec<Body>,
    tree: &Quadtree,
    node_size: u64,
    config: &Config,
) -> (out: Vec<Vec2>)
    requires
        all_valid(bodies@),
        tree@.additive(),
        config.gravitational_constant * tree@.summary().combined_mass <= STRENGTH_LIMIT,
    ensures
        out@ == accelerations(bodies@, tree@, node_size as int, *config),
{
    let mut out: Vec<Vec2> = Vec::new();
    let mut i: usize = 0;
    while i < bodies.len()
        invariant
            i <= bodies.len(),
            all_valid(bodies@),
            tree@.additive(),
            config.gravitational_constant * tree@.summary().combined_mass <= STRENGTH_LIMIT,
            out@.len() == i,
            forall|k: int|
                0 <= k < i ==> out@[k] == acceleration_at(
                    bodies@,
                    tree@,
                    node_size as int,
                    *config,
                    k,
                ),
        decreases bodies.len() - i,
    {
        let body = bodies[i];
        assert(body.valid());
        let a = get_approx_gravity(body, tree, node_size, config);
        out.push(a);
        i += 1;
    }
    assert(out@ =~= accelerations(bodies@, tree@, node_size as int, *config));
    out
}

/// The acceleration of the body at index `i` due to every other body, each
/// taken alone, as a machine vector.
pub open spec fn direct_acceleration_at(bodies: Seq<Body>, g: int, i: int) -> Vec2 {
    Vec2 {
        x: direct_gravity_sum(bodies[i], bodies, g).x as i64,
        y: direct_gravity_sum(bodies[i], bodies, g).y as i64,
    }
}

/// The accelerations of all bodies, each due to every other body taken
/// alone.
pub open spec fn direct_accelerations(bodies: Seq<Body>, g: int) -> Seq<Vec2> {
    Seq::new(bodies.len(), |i: int| direct_acceleration_at(bodies, g, i))
}

/// Gathers the acceleration of every body from every other body, without
/// a tree.
pub fn compute_direct_accelerations(bodies: &Vec<Body>, g: u64) -> (out: Vec<Vec2>)
    requires
        all_valid(bodies@),
        g * total_mass(bodies@) <= STRENGTH_LIMIT,
    ensures
        out@ == direct_accelerations(bodies@, g as int),
{
    let mut out: Vec<Vec2> = Vec::new();
    let mut i: usize = 0;
    while i < bodies.len()
        invariant
            i <= bodies.len(),
            all_valid(bodies@),
            g * total_mass(bodies@) <= STRENGTH_LIMIT,
            out@.len() == i,
            forall|k: int| 0 <= k < i ==> out@[k] == direct_acceleration_at(bodies@, g as int, k),
        decreases bodies.len() - i,
    {
        let body = bodies[i];
        assert(body.valid());
        let a = direct_gravity(body, bodies, g);
        out.push(a);
        i += 1;
    }
    assert(out@ =~= direct_accelerations(bodies@, g as int));
    out
}

/// Integrates every body by one step of `dt`, each under its own
/// acceleration.  `Err` holds the index of the first body whose step would
/// take it off the supported part of the lattice; no body is then returned.
pub fn integrate_all(bodies: &Vec<Body>, accelerations: &Vec<Vec2>, dt: u32) -> (r: Result<
    Vec<Body>,
    usize,
>)
    requires
        accelerations@.len() == bodies@.len(),
    ensures
        match r {
            Ok(next) => all_can_integrate(bodies@, accelerations@, dt as int, bodies@.len() as int)
                && next@ == integrated(bodies@, accelerations@, dt as int),
            Err(i) => i < bodies@.len() && all_can_integrate(
                bodies@,
                accelerations@,
                dt as int,
                i as int,
            ) && !can_integrate(bodies@[i as int], accelerations@[i as int]@, dt as int),
        },
{
    let mut next: Vec<Body> = Vec::new();
    let mut i: usize = 0;
    while i < bodies.len()
        invariant
            i <= bodies.len(),
            accelerations@.len() == bodies@.len(),
            next@.len() == i,
            all_can_integrate(bodies@, accelerations@, dt as int, i as int),
            forall|k: int|
                0 <= k < i ==> next@[k] == advanced(bodies@[k], accelerations@[k], dt as int),
        decreases bodies.len() - i,
    {
        match integrate(&bodies[i], accelerations[i], dt) {
            Some(b) => {
                next.push(b);
            },
            None => {
                return Err(i);
            },
        }
        i += 1;
    }
    assert(next@ =~= integrated(bodies@, accelerations@, dt as int));
    Ok(next)
}

} // verus!
