//! A static three-dimensional chess scene, described as plain data.
//!
//! The crate builds the scene a renderer has to show at startup: a camera and a
//! light, an 8 by 8 chequered board and the 32 pieces of the opening position. The
//! scene is an arena: entities are indices into a flat store, meshes and
//! materials live in tables of their own and are referred to by handle, and the
//! parent-child edges are kept as adjacency lists. All coordinates are
//! fixed-point integers, so every statement about the scene is exact.

pub mod board;
pub mod geometry;
pub mod lineup;
pub mod pieces;
pub mod scene;
pub mod stage;
