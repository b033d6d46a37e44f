//! The initial distribution of the bodies.

use vstd::prelude::*;
use rand::Rng;
use crate::body::{Body, COORD_LIMIT};
use crate::config::Config;
use crate::vector::Vec2;

verus! {

/// The thread-local generator of the `rand` crate.  Nothing is known of
/// what is inside.
#[verifier::external_type_specification]
#[verifier::external_body]
pub struct ExThreadRng(rand::rngs::ThreadRng);

/// `rand::thread_rng`: hands out the generator of the calling thread.
/// Nothing is claimed of it.
#[verifier::external_body]
fn thread_generator() -> (rng: rand::rngs::ThreadRng) {
    rand::thread_rng()
}

/// `rand::Rng::gen_range` on a half-open range of `i64`.  The call panics on
/// an empty range, which `requires` leaves out; its result lies in the
/// range, and that is all that is claimed of it.
#[verifier::external_body]
fn random_between(rng: &mut rand::rngs::ThreadRng, low: i64, high: i64) -> (r: i64)
    requires
        low < high,
    ensures
        low <= r < high,
{
    rng.gen_range(low..high)
}

/// A body of the initial distribution: at rest, of unit mass, at a position
/// in the square of the given radius round the origin.
pub open spec fn initial_body(b: Body, id: int, radius: int) -> bool {
    &&& b.id == id
    &&& b.mass == 1
    &&& -radius <= b.position.x < radius
    &&& -radius <= b.position.y < radius
    &&& b.velocity == (Vec2 { x: 0, y: 0 })
    &&& b.acceleration == (Vec2 { x: 0, y: 0 })
}

/// As many bodies as the configuration asks for, each at rest and of unit
/// mass, at positions drawn at random from the square of the configured
/// radius round the origin.
pub fn random_bodies(config: &Config) -> (bodies: Vec<Body>)
    requires
        config.valid(),
    ensures
        bodies@.len() == config.body_count,
        forall|i: int|
            0 <= i < bodies@.len() ==> initial_body(
                #[trigger] bodies@[i],
                i,
                config.spatial_radius as int,
            ) && bodies@[i].valid(),
{
    let radius: i64 = config.spatial_radius;
    let mut rng = thread_generator();
    let mut bodies: Vec<Body> = Vec::new();
    let mut i: usize = 0;
    while i < config.body_count
        invariant
            i <= config.body_count,
            1 <= radius <= COORD_LIMIT,
            radius == config.spatial_radius,
            bodies@.len() == i,
            forall|k: int|
                0 <= k < i ==> initial_body(#[trigger] bodies@[k], k, radius as int)
                    && bodies@[k].valid(),
        decreases config.body_count - i,
    {
        let x = random_between(&mut rng, -radius, radius);
        let y = random_between(&mut rng, -radius, radius);
        bodies.push(Body::at_rest(i, Vec2 { x, y }, 1));
        i += 1;
    }
    bodies
}

} // verus!
