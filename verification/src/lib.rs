//! A geometric topology engine for authoring tile-based game boards on
//! square and hexagonal grids, and for reconstructing equivalent topology
//! from externally authored line meshes.
//!
//! All geometry is carried in fixed-point world coordinates: one world unit
//! is `MILLI` (1000) coordinate steps, so every position, corner and vertex
//! is a pair or triple of integers. This makes picking, containment and
//! mesh reconstruction exact and deterministic.

pub mod basic_grid;
pub mod board;
pub mod geom;
pub mod grid;
pub mod import;
pub mod num;
pub mod util;
