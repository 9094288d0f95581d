//! A rigid-body simulation core for oriented boxes ("cuboids"): separating-axis
//! collision detection, contact-manifold generation by polygon clipping, a
//! spatial-hash broad phase, and a sequential-impulse constraint solver.
//!
//! All geometry and dynamics are computed in deterministic fixed-point
//! arithmetic (see [`fixed`]); every public operation carries a contract that
//! pins its result down as a mathematical function of its inputs.

pub mod fixed;
pub mod hash_grid;
pub mod math;
pub mod physics;
pub mod scenes;
pub mod solver;
pub mod world;
