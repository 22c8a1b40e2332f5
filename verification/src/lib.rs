//! A flocking simulation on fixed-point arithmetic: school fish attract,
//! align with and repel their neighbours, flee predators, and predators chase
//! the centre of the school.
//!
//! Every quantity (coordinates, velocities, forces, factors, seconds) is an
//! `i64` counting millionths, see [`fixed`].
use vstd::prelude::*;

mod chance;
pub mod fish;
pub mod fixed;
pub mod grid;
pub mod laws;
pub mod shoal;
pub mod vector;
pub mod wrench;

verus! {

/// Width of the world and of the picture, in whole length units.
pub const WIDTH: usize = 1920;

/// Height of the world and of the picture, in whole length units.
pub const HEIGHT: usize = 1080;

/// How many school fish a default population holds.
pub const SCHOOL_FISH_COUNT: usize = 300;

/// How many predators a default population holds.
pub const PREDATOR_COUNT: usize = 1;

/// The largest separation at which two school fish influence each other: 200.
pub const VISIBILITY_DISTANCE: i64 = 200_000_000;

/// Strength of the push between two school fish: 200000.
pub const REPULSION_FORCE_FACTOR: i64 = 200_000_000_000;

/// Strength with which a school fish takes over a neighbour's velocity: 100.
pub const ALIGNMENT_FORCE_FACTOR: i64 = 100_000_000;

/// Strength of the pull between two school fish: 20.
pub const ATTRACTION_FORCE_FACTOR: i64 = 20_000_000;

/// Strength with which a predator is drawn to the centre of the school: 1.
pub const PREDATOR_ATTRACTION_FACTOR: i64 = 1_000_000;

/// Strength with which a school fish is driven away from a predator: 5000000.
pub const PREDATOR_REPULSION_FACTOR: i64 = 5_000_000_000_000;

/// The speed along the first axis that every fish starts with: 100.
pub const INITIAL_SPEED: i64 = 100_000_000;

/// The colour of an empty picture.
pub const BACKGROUND_COLOR: u32 = 0x000000;

/// The colour of the dots that mark the world's grid.
pub const GRID_COLOR: u32 = 0x777777;

/// Every how many length units a grid line has a dot.
pub const GRID_DOT_SPACING: usize = 8;

} // verus!
