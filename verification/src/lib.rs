//! Flocking and territory capture on an integer lattice.
//!
//! Positions are lattice points with `i32` coordinates, speeds are whole
//! lattice steps per second, and steering requests are fixed-point numbers.
//! An application that keeps its poses in floating point quantises them once
//! per tick and hands the snapshot to the functions of this crate.

pub mod ai;
pub mod boids;
pub mod inputs;
pub mod quadtree;
pub mod round;
