//! The parameters of a run and their validation.

use vstd::prelude::*;
use crate::body::COORD_LIMIT;

verus! {

/// Largest product of the gravitational constant and a mass.
pub const STRENGTH_LIMIT: u64 = 0x4000_0000_0000_0000;

/// Largest time step.
pub const TIMESTEP_LIMIT: u32 = 0x8000_0000;

/// Largest numerator and denominator of the opening threshold.
pub const THETA_LIMIT: u16 = 0xffff;

/// The parameters of a run.  The opening threshold theta is the fraction
/// `theta_num / theta_den`.
#[derive(Clone, Copy, Debug, PartialEq, Eq, Structural)]
pub struct Config {
    pub body_count: usize,
    pub spatial_radius: i64,
    pub gravitational_constant: u64,
    pub theta_num: u16,
    pub theta_den: u16,
    pub timestep: u32,
}

/// The parameter that a configuration was refused for.
#[derive(Clone, Copy, Debug, PartialEq, Eq, Structural)]
pub enum ConfigError {
    BodyCount,
    SpatialRadius,
    GravitationalConstant,
    Theta,
    Timestep,
}

/// The number of bodies is positive and can be a length.
pub open spec fn body_count_ok(n: int) -> bool {
    1 <= n <= usize::MAX
}

/// The radius is positive and within the coordinate limit.
pub open spec fn spatial_radius_ok(r: int) -> bool {
    1 <= r <= COORD_LIMIT
}

/// The gravitational constant is positive and within the strength limit.
pub open spec fn gravitational_constant_ok(g: int) -> bool {
    1 <= g <= STRENGTH_LIMIT
}

/// Theta is positive, at most three halves, and its two parts are within
/// `THETA_LIMIT`.
pub open spec fn theta_ok(num: int, den: int) -> bool {
    &&& 1 <= num <= THETA_LIMIT
    &&& 1 <= den <= THETA_LIMIT
    &&& 2 * num <= 3 * den
}

/// The time step is positive and within `TIMESTEP_LIMIT`.
pub open spec fn timestep_ok(dt: int) -> bool {
    1 <= dt <= TIMESTEP_LIMIT
}

/// The first parameter, in the order of `Config::new`, that is not
/// acceptable; `None` where all are.
pub open spec fn first_fault(
    body_count: int,
    spatial_radius: int,
    gravitational_constant: int,
    theta_num: int,
    theta_den: int,
    timestep: int,
) -> Option<ConfigError> {
    if !body_count_ok(body_count) {
        Some(ConfigError::BodyCount)
    } else if !spatial_radius_ok(spatial_radius) {
        Some(ConfigError::SpatialRadius)
    } else if !gravitational_constant_ok(gravitational_constant) {
        Some(ConfigError::GravitationalConstant)
    } else if !theta_ok(theta_num, theta_den) {
        Some(ConfigError::Theta)
    } else if !timestep_ok(timestep) {
        Some(ConfigError::Timestep)
    } else {
        None
    }
}

impl Config {
    /// The first parameter that is not acceptable; `None` where all are.
    pub open spec fn spec_fault(self) -> Option<ConfigError> {
        first_fault(
            self.body_count as int,
            self.spatial_radius as int,
            self.gravitational_constant as int,
            self.theta_num as int,
            self.theta_den as int,
            self.timestep as int,
        )
    }

    /// Every parameter is acceptable.
    pub open spec fn valid(self) -> bool {
        self.spec_fault() is None
    }

    /// Checks the parameters and makes a configuration of them.  A parameter
    /// that is zero, negative or beyond its limit is refused, and the error
    /// names the first such parameter.
    pub fn new(
        body_count: i64,
        spatial_radius: i64,
        gravitational_constant: i64,
        theta_num: i64,
        theta_den: i64,
        timestep: i64,
    ) -> (r: Result<Config, ConfigError>)
        ensures
            match first_fault(
                body_count as int,
                spatial_radius as int,
                gravitational_constant as int,
                theta_num as int,
                theta_den as int,
                timestep as int,
            ) {
                Some(e) => r == Err::<Config, ConfigError>(e),
                None => r.is_ok() && r.unwrap().valid() && r.unwrap().body_count == body_count
                    && r.unwrap().spatial_radius == spatial_radius
                    && r.unwrap().gravitational_constant == gravitational_constant
                    && r.unwrap().theta_num == theta_num && r.unwrap().theta_den == theta_den
                    && r.unwrap().timestep == timestep,
            },
    {
        if body_count < 1 || body_count as u64 > usize::MAX as u64 {
            return Err(ConfigError::BodyCount);
        }
        if spatial_radius < 1 || spatial_radius > COORD_LIMIT {
            return Err(ConfigError::SpatialRadius);
        }
        if gravitational_constant < 1 || gravitational_constant as u64 > STRENGTH_LIMIT {
            return Err(ConfigError::GravitationalConstant);
        }
        if theta_num < 1 || theta_num > THETA_LIMIT as i64 || theta_den < 1 || theta_den
            > THETA_LIMIT as i64 || 2 * theta_num > 3 * theta_den {
            return Err(ConfigError::Theta);
        }
        if timestep < 1 || timestep > TIMESTEP_LIMIT as i64 {
            return Err(ConfigError::Timestep);
        }
        Ok(
            Config {
                body_count: body_count as usize,
                spatial_radius,
                gravitational_constant: gravitational_constant as u64,
                theta_num: theta_num as u16,
                theta_den: theta_den as u16,
                timestep: timestep as u32,
            },
        )
    }
}

impl Config {
    /// The first parameter that is not acceptable, if there is one.
    pub fn fault(&self) -> (r: Option<ConfigError>)
        ensures
            r == self.spec_fault(),
            r.is_none() <==> self.valid(),
    {
        if self.body_count < 1 {
            Some(ConfigError::BodyCount)
        } else if self.spatial_radius < 1 || self.spatial_radius > COORD_LIMIT {
            Some(ConfigError::SpatialRadius)
        } else if self.gravitational_constant < 1 || self.gravitational_constant
            > STRENGTH_LIMIT {
            Some(ConfigError::GravitationalConstant)
        } else if self.theta_num < 1 || self.theta_den < 1 || 2 * (self.theta_num as u32) > 3 * (
        self.theta_den as u32) {
            Some(ConfigError::Theta)
        } else if self.timestep < 1 || self.timestep > TIMESTEP_LIMIT {
            Some(ConfigError::Timestep)
        } else {
            None
        }
    }
}

impl ConfigError {
    /// The line of text that names the refused parameter.
    pub open spec fn spec_message(self) -> Seq<char> {
        match self {
            ConfigError::BodyCount => "the number of bodies must be positive"@,
            ConfigError::SpatialRadius => "the spatial radius must be positive and within the coordinate limit"@,
            ConfigError::GravitationalConstant => "the gravitational constant must be positive and within the strength limit"@,
            ConfigError::Theta => "theta must be positive and at most three halves"@,
            ConfigError::Timestep => "the time step must be positive and within its limit"@,
        }
    }

    /// A line of text that names the refused parameter.
    pub fn message(&self) -> (s: &'static str)
        ensures
            s@ == self.spec_message(),
    {
        match self {
            ConfigError::BodyCount => "the number of bodies must be positive",
            ConfigError::SpatialRadius => "the spatial radius must be positive and within the coordinate limit",
            ConfigError::GravitationalConstant => "the gravitational constant must be positive and within the strength limit",
            ConfigError::Theta => "theta must be positive and at most three halves",
            ConfigError::Timestep => "the time step must be positive and within its limit",
        }
    }
}

} // verus!
