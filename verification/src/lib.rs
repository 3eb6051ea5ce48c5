//! Core engine of a continuous cellular-automaton ecosystem simulation:
//! a double-buffered field store, a procedural world generator, the ordered
//! compute-pass plan that advances one simulation step, host-side diagnostics
//! over field snapshots, and a versioned binary snapshot codec.
//!
//! Cell quantities (mass, energy, genome traits, resources) are represented
//! as fixed-point integers in millionths, so that every numeric rule of the
//! engine is exact and checkable.

use vstd::prelude::*;

pub mod config;
pub mod fixed;
pub mod grid;
pub mod metrics;
pub mod pipeline;
pub mod rng;
pub mod state_io;
pub mod world;
pub mod worldgen;

verus! {

/// World width in cells.
pub const WORLD_WIDTH: u32 = 512;

/// World height in cells.
pub const WORLD_HEIGHT: u32 = 512;

/// Compute workgroup size along x for the per-cell passes.
pub const WORKGROUP_X: u32 = 16;

/// Compute workgroup size along y for the per-cell passes.
pub const WORKGROUP_Y: u32 = 16;

/// One whole unit in the fixed-point scale: field values in [0, 1]
/// are stored as integers in [0, FIX_ONE].
pub const FIX_ONE: u32 = 1_000_000;

/// Simulation time step, in millionths (0.1).
pub const DT: u32 = 100_000;

/// Initial mass fill fraction of the world, in millionths (0.15).
pub const TARGET_FILL: u32 = 150_000;

/// Number of cells of the default world.
pub fn total_pixels() -> (n: u32)
    ensures
        n == WORLD_WIDTH * WORLD_HEIGHT,
{
    WORLD_WIDTH * WORLD_HEIGHT
}

} // verus!
