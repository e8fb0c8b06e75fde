//! A falling-sand simulation on a fixed-size 2D grid.
//!
//! The grid owns three parallel per-cell arrays (occupancy, vertical
//! velocity, RGBA color) and exposes two operations: depositing new
//! material at a coordinate, and advancing every particle by one
//! discrete gravity step.  All quantities are kept in fixed-point
//! integer units so that every step is exactly specified and verified.

pub mod grid;
pub mod model;
pub mod primitives;
pub mod props;
pub mod utils;
