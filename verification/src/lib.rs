//! The integer core of a 2-D rigid-body simulation: a quadtree over
//! axis-aligned boxes that names every pair of boxes that share a point, and
//! a world that keeps such a tree in step with its bodies as they are added,
//! moved and removed.
//!
//! The tree takes handles of any type that can be compared and copied; the
//! world hands out its own, backed by a generational arena.
//!
//! Positions, velocities and the exact contact tests are a matter of
//! floating point and live with the caller. What the caller hands to this
//! crate is the box of each body, rounded outwards to whole numbers.

pub mod collision;
pub mod quad_tree;
pub mod shape;
pub mod vec;
pub mod world;

pub use vec::Vec2;
