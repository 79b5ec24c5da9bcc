//! A mutable, diggable voxel terrain engine.
//!
//! A dense three-dimensional grid of materials supports point and radius
//! edits, a gravity-driven cellular-automaton relaxation of unsupported
//! material, and on-demand conversion of the voxel state into per-material
//! scalar fields for isosurface extraction and a voxelized collider
//! description.

pub mod automaton;
pub mod bitset;
pub mod coords;
pub mod dirty;
pub mod edit;
pub mod extract;
pub mod grid;
pub mod settling;
pub mod voxel;
