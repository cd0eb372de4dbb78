//! Combat-effect resolution for a real-time simulation.
//!
//! An [`effect::Effect`] turns the outcome of an ability (deal damage, heal,
//! dash, launch a projectile) into a change of the simulation state, the
//! [`model::Logic`]. Effects nest: a projectile carries the effect of its
//! impact, a dash the effect of its contact. A nested effect is data until
//! the host triggers it.
//!
//! All quantities are fixed-point integers in thousandths (see [`fixed`]).
//! Results are rounded to thousandths, each in a stated direction, so they
//! are reproducible, and every function states what it computes and how far
//! rounding takes it from the equations behind it.

pub mod aiming;
pub mod ballistics;
pub mod context;
pub mod effect;
pub mod fixed;
pub mod model;
mod rounding;
