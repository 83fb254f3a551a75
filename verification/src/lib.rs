//! Flocking for agents in a two-dimensional world, in fixed-point arithmetic.
//!
//! Every length, speed, weight and cosine is an integer number of thousandths
//! ([`fixed::ONE`] stands for 1.0), and every quotient is rounded toward zero,
//! so that each steering rule has an exact mathematical statement and every
//! result is reproducible bit for bit.
//!
//! [`boid`] holds the flocking engine and [`rules`] its steering rules;
//! [`laws`] and [`convergence`] state what holds of them on every input.
//! [`entities`] keeps the simulated world as a list of entities with optional
//! components, on which [`movement`], [`polish`] and [`render`] work.
pub mod boid;
pub mod convergence;
pub mod entities;
pub mod fixed;
pub mod laws;
pub mod movement;
pub mod polish;
mod random;
pub mod render;
pub mod rules;
pub mod vector;
