//! A verified flocking ("boids") simulation core.
//!
//! Agents live on a toroidal window, steer by the classic alignment,
//! cohesion and separation rules (plus an optional wall-avoidance pull
//! toward the window centre), and advance one frame at a time from an
//! immutable snapshot of the whole population.
//!
//! All quantities are fixed-point integers: a value of [`fixed::SCALE`]
//! stands for 1.0. This keeps every computation exact, so each function
//! carries a contract that pins its result down completely.

pub mod boid;
pub mod fixed;
pub mod sim;
pub mod vec2;

pub use fixed::SCALE;
