//! The material held by a single cell of the grid.

use vstd::prelude::*;

verus! {

/// The discrete state of one cell.
///
/// `Air` denotes empty space. `Barrier` is reserved for hard boundaries: it
/// is never moved by the automaton and never meshed. `Dirt` and `Sand` are
/// the granular materials the automaton settles.
#[derive(Clone, Copy, PartialEq, Eq, Structural, Debug, Hash)]
pub enum Voxel {
    Dirt,
    Sand,
    Barrier,
    Air,
}

/// The initial fill material of a freshly created volume.
#[derive(Clone, Copy, PartialEq, Eq, Structural, Debug)]
pub enum VoxelFill {
    Dirt,
    Sand,
}

impl VoxelFill {
    /// The material a volume with this fill setting is filled with.
    pub fn voxel(self) -> (r: Voxel)
        ensures
            self == VoxelFill::Dirt ==> r == Voxel::Dirt,
            self == VoxelFill::Sand ==> r == Voxel::Sand,
    {
        match self {
            VoxelFill::Dirt => Voxel::Dirt,
            VoxelFill::Sand => Voxel::Sand,
        }
    }
}

/// Whether the automaton moves this material: only the granular materials
/// fall; `Air` and `Barrier` never move.
pub open spec fn falls(v: Voxel) -> bool {
    v == Voxel::Dirt || v == Voxel::Sand
}

} // verus!
