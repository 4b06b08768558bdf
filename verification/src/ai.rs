//! The steering systems and the bots that play leaders.

pub mod bots;
pub mod systems;
