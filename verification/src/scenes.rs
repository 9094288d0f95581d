//! Scene selection: the initial layouts a host can populate a world with.
//!
//! Populating a scene chooses body counts, positions, densities and initial
//! rotations; that set-up (including the trigonometry behind arbitrary
//! initial orientations) lives with the host, which hands the finished body
//! list to [`crate::world::World::new`]. The enum itself is shared so hosts
//! and tools can name layouts.

use vstd::prelude::*;

verus! {

/// The available initial layouts.
#[derive(Clone, Copy, Debug, PartialEq, Eq, Structural)]
pub enum Scene {
    /// A flat grid of unit cubes dropped from a height.
    Grid,
    /// A leaning column that visibly stacks at small body counts.
    SlantedTower,
    /// A carpet of small cubes with one heavy block falling in.
    Meteor,
    /// The meteor scene upside down: the carpet falls onto the block.
    InvertedMeteor,
    /// Levers on fulcrums with projectiles and falling weights.
    Catapult,
    /// Tall thin boxes standing on end.
    Sticks,
    /// Broad flat platforms.
    Platforms,
    /// A full three-dimensional block of cubes.
    Cube,
}

} // verus!
