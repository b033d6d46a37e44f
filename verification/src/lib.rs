//! A Barnes-Hut gravity simulator on an integer lattice.
//!
//! Positions, velocities and accelerations are integer vectors in lattice
//! units, masses are positive integers, and every operation is exact integer
//! arithmetic, so a run is reproducible bit for bit.
//!
//! A frame builds a quadtree over the bounding region of the bodies, gathers
//! from it the acceleration of every body, and integrates every body by one
//! semi-implicit Euler step.
//!
//! # Units
//!
//! The lattice has no unit of its own: a caller picks a unit of length, one
//! of mass and one of time, and states every quantity as a whole number of
//! them.  The gravitational constant has the dimension of length cubed over
//! mass and time squared, so with lengths and masses in thousandths a
//! constant of 1 becomes 1000^3 / 1000 = 1_000_000.  Two unit masses ten
//! apart are then 1000 and 1000 at a distance of 10_000, and pull each other
//! with 10 thousandths per tick squared.
//!
//! # Limits
//!
//! Coordinates are within `COORD_LIMIT` of the origin, a mass and the mass
//! of all bodies together within `MASS_LIMIT`, and the gravitational
//! constant times a mass within `STRENGTH_LIMIT`.  Within these limits no
//! operation of the library overflows.

pub mod arith;
pub mod body;
pub mod clamping;
pub mod config;
pub mod driver;
pub mod exactness;
pub mod frame;
pub mod gravity;
pub mod init;
pub mod integrator;
pub mod momentum;
pub mod region;
pub mod summary;
pub mod symmetry;
pub mod trace;
pub mod tree;
pub mod vector;

pub use crate::body::Body;
pub use crate::clamping::clamp;
pub use crate::config::{Config, ConfigError};
pub use crate::driver::{Phase, SetupError, Simulation, StepOutcome};
pub use crate::gravity::{direct_gravity, get_approx_gravity, newton_gravity_acceleration};
pub use crate::integrator::integrate;
pub use crate::region::{bounding_region, Quadrant, Region};
pub use crate::summary::Summary;
pub use crate::tree::{construct_tree, Quadtree};
pub use crate::vector::Vec2;
