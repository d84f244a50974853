//! A headless ant-colony simulation: agents wander a bounded arena, lay
//! fading scent markers and steer toward the markers of others.
//!
//! All quantities are integers in fixed units:
//! - positions are in thousandths of an arena unit (`i32`);
//! - angles are in millidegrees, a full turn being `FULL_TURN`;
//! - direction vectors are scaled by `DIR_SCALE`;
//! - time is in milliseconds.
//!
//! One tick runs `Simulation::scent_targets`, turns each offset into a
//! bearing, `Simulation::steer`, turns each heading into a `Direction`, and
//! `Simulation::advance`. The two conversions are trigonometry, left to the
//! host.
pub mod agent;
pub mod config;
pub mod geometry;
mod random;
pub mod scent;
pub mod sim;
pub mod steering;

pub use agent::{tick_timer, Agent};
pub use config::{ConfigError, SimConfig};
pub use geometry::{
    clamp, follow_turn, normalize_angle, turn_penalty, Arena, Direction, DIR_SCALE, FULL_TURN,
    HALF_TURN,
};
pub use scent::{Marker, ScentField};
pub use sim::Simulation;
pub use steering::{replay_headings, steer, TurnInput};
