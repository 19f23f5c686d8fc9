//! Flocking on an integer grid.
//!
//! A population of boids moves in discrete ticks. Each boid looks at the
//! others that are close to it and steers toward their centre, toward their
//! common heading and away from those that crowd it. All coordinates are
//! fixed-point integers: one world unit is [`vector::UNIT`] grid steps, a
//! billion of them, so every rule is exact integer arithmetic and every
//! contract is a statement about integers. What a rule rounds, it rounds
//! toward zero, by less than one grid step.
//!
//! - [`numeric`]: floor square roots, division that rounds toward zero,
//!   and products of 256 bits.
//! - [`vector`]: vectors on the grid, their distances, rescaling and
//!   capping.
//! - [`boid`]: a boid, its seeding, its neighbours, and its wrapping,
//!   capping and moving.
//! - [`steering`]: the three steering rules.
//! - [`model`]: the flock, the world, and the tick.

pub mod numeric;
pub mod vector;
pub mod boid;
pub mod steering;
pub mod model;
