//! Verified core of a trajectory animation tool.
//!
//! The tool turns a table of timestamped 3-D positions into a looping
//! animation: overlapping windows of consecutive samples are rendered one
//! per frame, each frame showing the 3-D body path together with three flat
//! projections onto the bounding walls, seen from a slowly oscillating
//! camera.  This crate holds the part of that pipeline that is pure
//! computation — windowing, the camera state machine, the projections,
//! the decimal cell parser, the null-filling table constructor and the
//! frame annotations — with contracts proved by Verus.
//! Reading CSV input, fetching remote data and drawing pixels are left to a
//! thin unverified shell around this crate.
//!
//! All quantities are exact integers in fixed units: angles in 1/10000
//! radian, spatial coordinates and times in 1/1000000 of a data unit.

pub mod camera;
pub mod config;
pub mod csv;
pub mod label;
pub mod number;
pub mod plan;
pub mod project;
pub mod table;
pub mod window;
