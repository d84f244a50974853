use vstd::prelude::*;
use crate::geometry::{Arena, HALF_TURN};

verus! {

/// The start-of-run constants of a simulation.
///
/// Units: positions and speeds in thousandths of an arena unit (speeds per
/// second), angles in millidegrees, times in milliseconds.
#[derive(Clone, Copy, Debug, PartialEq, Eq)]
pub struct SimConfig {
    pub arena: Arena,
    /// Agents get a speed drawn from `[speed_min, speed_max)`.
    pub speed_min: u32,
    pub speed_max: u32,
    /// Random turns are drawn from `[-turn_strength, turn_strength)`.
    pub turn_strength: i64,
    /// Time between two depositions of one agent.
    pub deposit_period_ms: u32,
    /// Strength of a freshly deposited marker.
    pub initial_strength: i64,
    /// Strength lost by every marker on each decay pass.
    pub fade_rate: i64,
    /// Markers farther than this are not followed.
    pub follow_radius: i64,
}

/// Why a configuration was refused.
#[derive(Clone, Copy, Debug, PartialEq, Eq)]
pub enum ConfigError {
    NonPositiveExtent,
    EmptySpeedRange,
    TurnStrengthOutOfRange,
    NonPositivePeriod,
    NonPositiveStrength,
    NonPositiveFadeRate,
    NegativeFollowRadius,
}

impl SimConfig {
    pub open spec fn wf(self) -> bool {
        &&& self.arena.wf()
        &&& self.speed_min < self.speed_max
        &&& 0 < self.turn_strength <= HALF_TURN
        &&& self.deposit_period_ms > 0
        &&& self.initial_strength > 0
        &&& self.fade_rate > 0
        &&& self.follow_radius >= 0
    }

    /// The first rule, in the order of the fields, that these values break.
    pub open spec fn first_error(
        half_width: i32,
        half_height: i32,
        speed_min: u32,
        speed_max: u32,
        turn_strength: i64,
        deposit_period_ms: u32,
        initial_strength: i64,
        fade_rate: i64,
        follow_radius: i64,
    ) -> Option<ConfigError> {
        if half_width <= 0 || half_height <= 0 {
            Some(ConfigError::NonPositiveExtent)
        } else if speed_min >= speed_max {
            Some(ConfigError::EmptySpeedRange)
        } else if turn_strength <= 0 || turn_strength > HALF_TURN {
            Some(ConfigError::TurnStrengthOutOfRange)
        } else if deposit_period_ms == 0 {
            Some(ConfigError::NonPositivePeriod)
        } else if initial_strength <= 0 {
            Some(ConfigError::NonPositiveStrength)
        } else if fade_rate <= 0 {
            Some(ConfigError::NonPositiveFadeRate)
        } else if follow_radius < 0 {
            Some(ConfigError::NegativeFollowRadius)
        } else {
            None
        }
    }

    /// Checks and builds a configuration: `Err` with the first broken rule,
    /// else `Ok` with exactly these values.
    pub fn new(
        half_width: i32,
        half_height: i32,
        speed_min: u32,
        speed_max: u32,
        turn_strength: i64,
        deposit_period_ms: u32,
        initial_strength: i64,
        fade_rate: i64,
        follow_radius: i64,
    ) -> (r: Result<SimConfig, ConfigError>)
        ensures
            match Self::first_error(
                half_width,
                half_height,
                speed_min,
                speed_max,
                turn_strength,
                deposit_period_ms,
                initial_strength,
                fade_rate,
                follow_radius,
            ) {
                Some(e) => r == Err::<SimConfig, ConfigError>(e),
                None => r.is_ok() && r.unwrap().wf() && r.unwrap() == (SimConfig {
                    arena: Arena { half_width, half_height },
                    speed_min,
                    speed_max,
                    turn_strength,
                    deposit_period_ms,
                    initial_strength,
                    fade_rate,
                    follow_radius,
                }),
            },
    {
        if half_width <= 0 || half_height <= 0 {
            Err(ConfigError::NonPositiveExtent)
        } else if speed_min >= speed_max {
            Err(ConfigError::EmptySpeedRange)
        } else if turn_strength <= 0 || turn_strength > HALF_TURN {
            Err(ConfigError::TurnStrengthOutOfRange)
        } else if deposit_period_ms == 0 {
            Err(ConfigError::NonPositivePeriod)
        } else if initial_strength <= 0 {
            Err(ConfigError::NonPositiveStrength)
        } else if fade_rate <= 0 {
            Err(ConfigError::NonPositiveFadeRate)
        } else if follow_radius < 0 {
            Err(ConfigError::NegativeFollowRadius)
        } else {
            Ok(SimConfig {
                arena: Arena { half_width, half_height },
                speed_min,
                speed_max,
                turn_strength,
                deposit_period_ms,
                initial_strength,
                fade_rate,
                follow_radius,
            })
        }
    }

    /// The standard setting: an arena of half-extents 1000 by 500 units,
    /// speeds of 30 to 100 units per second, random turns of up to a tenth
    /// of a half turn, a deposit every 100 ms, markers of strength one
    /// million fading by one thousand per pass, followed within 100 units.
    pub fn standard() -> (r: SimConfig)
        ensures
            r.wf(),
            r.arena == (Arena { half_width: 1_000_000, half_height: 500_000 }),
            r.speed_min == 30_000 && r.speed_max == 100_000,
            r.turn_strength == HALF_TURN / 10,
            r.deposit_period_ms == 100,
            r.initial_strength == 1_000_000,
            r.fade_rate == 1_000,
            r.follow_radius == 100_000,
    {
        SimConfig {
            arena: Arena { half_width: 1_000_000, half_height: 500_000 },
            speed_min: 30_000,
            speed_max: 100_000,
            turn_strength: HALF_TURN / 10,
            deposit_period_ms: 100,
            initial_strength: 1_000_000,
            fade_rate: 1_000,
            follow_radius: 100_000,
        }
    }
}

} // verus!
