//! The semi-implicit Euler step of one body.

use vstd::prelude::*;
use crate::body::{Body, COORD_LIMIT};
use crate::vector::{Vec2, Vector};

verus! {

/// The velocity after a step: `velocity + acceleration * dt`.
pub open spec fn advanced_velocity(body: Body, acceleration: Vector, dt: int) -> Vector {
    body.velocity@.plus(acceleration.times(dt))
}

/// The position after a step, reached with the new velocity:
/// `position + advanced_velocity * dt`.
pub open spec fn advanced_position(body: Body, acceleration: Vector, dt: int) -> Vector {
    body.position@.plus(advanced_velocity(body, acceleration, dt).times(dt))
}

/// The step keeps the body on the supported part of the lattice: no
/// component of the new velocity is beyond `i64::MAX` in size, and the new
/// position is within `COORD_LIMIT`.
pub open spec fn can_integrate(body: Body, acceleration: Vector, dt: int) -> bool {
    &&& advanced_velocity(body, acceleration, dt).within(i64::MAX as int)
    &&& advanced_position(body, acceleration, dt).within(COORD_LIMIT as int)
}

/// The body after a step that keeps it on the supported part of the lattice.
/// Its `id` and mass stay, and it records the acceleration it was moved by.
pub open spec fn advanced(body: Body, acceleration: Vec2, dt: int) -> Body {
    Body {
        id: body.id,
        position: Vec2 {
            x: advanced_position(body, acceleration@, dt).x as i64,
            y: advanced_position(body, acceleration@, dt).y as i64,
        },
        mass: body.mass,
        velocity: Vec2 {
            x: advanced_velocity(body, acceleration@, dt).x as i64,
            y: advanced_velocity(body, acceleration@, dt).y as i64,
        },
        acceleration,
    }
}

/// One coordinate of the step: the new velocity and the new position, or
/// `None` where the new velocity does not fit its representation.
fn advance_coordinate(position: i64, velocity: i64, acceleration: i64, dt: u32) -> (r: Option<
    (i64, i128),
>)
    ensures
        r.is_some() <==> -i64::MAX <= velocity + acceleration * dt <= i64::MAX,
        r.is_some() ==> r.unwrap().0 == velocity + acceleration * dt && r.unwrap().1 == position
            + (velocity + acceleration * dt) * dt,
{
    let a: i128 = acceleration as i128;
    let t: i128 = dt as i128;
    assert(-0x8000_0000_0000_0000_0000_0000 <= a * t <= 0x8000_0000_0000_0000_0000_0000)
        by (nonlinear_arith)
        requires
            -0x8000_0000_0000_0000 <= a <= 0x8000_0000_0000_0000,
            0 <= t <= 0x1_0000_0000,
    ;
    let v: i128 = (velocity as i128) + a * t;
    if v < -(i64::MAX as i128) || v > i64::MAX as i128 {
        return None;
    }
    assert(-0x8000_0000_0000_0000_0000_0000 <= v * t <= 0x8000_0000_0000_0000_0000_0000)
        by (nonlinear_arith)
        requires
            -0x8000_0000_0000_0000 <= v <= 0x8000_0000_0000_0000,
            0 <= t <= 0x1_0000_0000,
    ;
    let p: i128 = (position as i128) + v * t;
    Some((v as i64, p))
}

/// Advances one body by one step of `dt` under the given acceleration:
/// first the velocity, then the position with the new velocity.  There is
/// no damping and no clamping.  `None` where the step would take the body
/// off the supported part of the lattice.
pub fn integrate(body: &Body, acceleration: Vec2, dt: u32) -> (r: Option<Body>)
    ensures
        r.is_some() <==> can_integrate(*body, acceleration@, dt as int),
        r.is_some() ==> r.unwrap() == advanced(*body, acceleration, dt as int),
{
    let p_max: i128 = COORD_LIMIT as i128;
    match (
        advance_coordinate(body.position.x, body.velocity.x, acceleration.x, dt),
        advance_coordinate(body.position.y, body.velocity.y, acceleration.y, dt),
    ) {
        (Some((vx, px)), Some((vy, py))) => {
            if -p_max <= px && px <= p_max && -p_max <= py && py <= p_max {
                Some(
                    Body {
                        id: body.id,
                        position: Vec2 { x: px as i64, y: py as i64 },
                        mass: body.mass,
                        velocity: Vec2 { x: vx, y: vy },
                        acceleration,
                    },
                )
            } else {
                None
            }
        },
        _ => None,
    }
}

} // verus!
