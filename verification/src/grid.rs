//! The voxel grid: authoritative material state and the edit API.

use crate::bitset::{bit_capacity, bits_of};
use crate::coords::{
    delinearize, in_bounds, linearize, spec_delinearize, spec_in_bounds, spec_linearize,
    spec_volume, wf_bounds, Pos3,
};
use crate::voxel::Voxel;
use vstd::prelude::*;

verus! {

/// Number of `Air` cells among the first `n` cells.
pub open spec fn count_air_to(cells: Seq<Voxel>, n: int) -> int
    decreases n,
{
    if n <= 0 {
        0
    } else {
        count_air_to(cells, n - 1) + if cells[n - 1] == Voxel::Air {
            1int
        } else {
            0int
        }
    }
}

/// Number of `Air` cells in the whole buffer.
pub open spec fn count_air(cells: Seq<Voxel>) -> int {
    count_air_to(cells, cells.len() as int)
}

pub proof fn lemma_count_air_bounds(cells: Seq<Voxel>, n: int)
    requires
        0 <= n <= cells.len(),
    ensures
        0 <= count_air_to(cells, n) <= n,
    decreases n,
{
    if n > 0 {
        lemma_count_air_bounds(cells, n - 1);
    }
}

/// A buffer whose air count equals its length holds nothing but `Air`.
pub proof fn lemma_count_air_full(cells: Seq<Voxel>, n: int)
    requires
        0 <= n <= cells.len(),
        count_air_to(cells, n) == n,
    ensures
        forall|j: int| 0 <= j < n ==> cells[j] == Voxel::Air,
    decreases n,
{
    if n > 0 {
        lemma_count_air_bounds(cells, n - 1);
        lemma_count_air_full(cells, n - 1);
    }
}

/// The grid-local positions of the non-`Air` cells among the first `n`
/// cells, in ascending index order.
pub open spec fn solid_positions_to(b: Pos3, cells: Seq<Voxel>, n: int) -> Seq<Pos3>
    decreases n,
{
    if n <= 0 {
        Seq::empty()
    } else {
        let prefix = solid_positions_to(b, cells, n - 1);
        if cells[n - 1] == Voxel::Air {
            prefix
        } else {
            prefix.push(spec_delinearize(b, n - 1))
        }
    }
}

/// A prefix with no solid cell yields no collider positions, and conversely.
pub proof fn lemma_solid_positions_empty(b: Pos3, cells: Seq<Voxel>, n: int)
    requires
        0 <= n <= cells.len(),
    ensures
        solid_positions_to(b, cells, n).len() == 0 <==> (forall|j: int|
            0 <= j < n ==> cells[j] == Voxel::Air),
    decreases n,
{
    if n > 0 {
        lemma_solid_positions_empty(b, cells, n - 1);
    }
}

/// A dense, fixed-size voxel volume together with the bookkeeping the
/// simulation and the remesh pass need.
pub struct VoxelSim {
    /// Integer extents of the grid, fixed at creation.
    pub bounds: Pos3,
    /// Dense material buffer, one entry per cell.
    pub voxels: Vec<Voxel>,
    /// Cells written since the last relaxation pass.
    pub modified: fixedbitset::FixedBitSet,
    /// Set by every mutation; cleared by the consumer once it has rebuilt
    /// meshes and collider.
    pub needs_remesh: bool,
}

impl VoxelSim {
    /// Structural invariant: well-formed extents, a cell buffer of exactly
    /// the grid volume, and a modified bitset over the same index space.
    pub open spec fn wf(self) -> bool {
        &&& wf_bounds(self.bounds)
        &&& self.voxels@.len() == spec_volume(self.bounds)
        &&& bit_capacity(self.modified) == spec_volume(self.bounds)
        &&& forall|k: int|
            bits_of(self.modified).contains(k) ==> 0 <= k < spec_volume(self.bounds)
    }

    /// Total number of cells.
    pub fn volume(&self) -> (r: usize)
        requires
            wf_bounds(self.bounds),
        ensures
            r == spec_volume(self.bounds),
    {
        proof {
            assert(self.bounds.x * self.bounds.y <= self.bounds.x * self.bounds.y * self.bounds.z)
                by (nonlinear_arith)
                requires
                    1 <= self.bounds.x && 1 <= self.bounds.y && 1 <= self.bounds.z,
            ;
        }
        (self.bounds.x as usize) * (self.bounds.y as usize) * (self.bounds.z as usize)
    }

    /// A fresh volume with the given extents, entirely `Air`, with nothing
    /// marked modified and nothing awaiting a remesh.
    pub fn new(bounds: Pos3) -> (r: VoxelSim)
        requires
            wf_bounds(bounds),
        ensures
            r.wf(),
            r.bounds == bounds,
            r.voxels@ =~= Seq::new(spec_volume(bounds) as nat, |i: int| Voxel::Air),
            bits_of(r.modified) == Set::<int>::empty(),
            r.needs_remesh == false,
    {
        let mut sim = VoxelSim::new_filled(bounds, Voxel::Air);
        sim.needs_remesh = false;
        sim
    }

    /// A fresh volume with the given extents, every cell holding `fill`.
    /// The modified set is clear, so the initial fill does not trigger a
    /// full-volume relaxation pass, but the volume awaits a remesh, so the
    /// first remesh pass builds the initial mesh and collider.
    pub fn new_filled(bounds: Pos3, fill: Voxel) -> (r: VoxelSim)
        requires
            wf_bounds(bounds),
        ensures
            r.wf(),
            r.bounds == bounds,
            r.voxels@ =~= Seq::new(spec_volume(bounds) as nat, |i: int| fill),
            bits_of(r.modified) == Set::<int>::empty(),
            r.needs_remesh == true,
    {
        let sim = VoxelSim {
            bounds,
            voxels: Vec::new(),
            modified: fixedbitset::FixedBitSet::with_capacity(0),
            needs_remesh: false,
        };
        let volume = sim.volume();
        let mut voxels: Vec<Voxel> = Vec::new();
        for i in 0..volume
            invariant
                voxels@.len() == i,
                forall|j: int| 0 <= j < i ==> voxels@[j] == fill,
        {
            voxels.push(fill);
        }
        VoxelSim {
            bounds,
            voxels,
            modified: fixedbitset::FixedBitSet::with_capacity(volume),
            needs_remesh: true,
        }
    }

    /// The flat index of the in-bounds position `pos`.
    pub fn linearize(&self, pos: Pos3) -> (r: usize)
        requires
            wf_bounds(self.bounds),
            spec_in_bounds(self.bounds, pos),
        ensures
            r == spec_linearize(self.bounds, pos),
            r < spec_volume(self.bounds),
    {
        linearize(self.bounds, pos)
    }

    /// The position of the valid cell index `index`.
    pub fn delinearize(&self, index: usize) -> (r: Pos3)
        requires
            wf_bounds(self.bounds),
            index < spec_volume(self.bounds),
        ensures
            r == spec_delinearize(self.bounds, index as int),
            spec_in_bounds(self.bounds, r),
            spec_linearize(self.bounds, r) == index,
    {
        delinearize(self.bounds, index)
    }

    /// Whether `pos` lies inside this volume.
    pub fn in_bounds(&self, pos: Pos3) -> (r: bool)
        ensures
            r == spec_in_bounds(self.bounds, pos),
    {
        in_bounds(self.bounds, pos)
    }

    /// The material at `pos`, or `None` if `pos` is out of bounds.
    pub fn get(&self, pos: Pos3) -> (r: Option<Voxel>)
        requires
            self.wf(),
        ensures
            !spec_in_bounds(self.bounds, pos) ==> r == None::<Voxel>,
            spec_in_bounds(self.bounds, pos) ==> r == Some(
                self.voxels@[spec_linearize(self.bounds, pos)],
            ),
    {
        if !self.in_bounds(pos) {
            return None;
        }
        let index = self.linearize(pos);
        Some(self.voxels[index])
    }

    /// Marks a cell as written since the last relaxation pass.
    fn mark_modified(&mut self, index: usize)
        requires
            old(self).wf(),
            index < spec_volume(old(self).bounds),
        ensures
            final(self).wf(),
            *final(self) == (VoxelSim {
                modified: final(self).modified,
                ..*old(self)
            }),
            bits_of(final(self).modified) == bits_of(old(self).modified).insert(index as int),
            bit_capacity(final(self).modified) == bit_capacity(old(self).modified),
    {
        self.modified.insert(index);
    }

    /// Whether any cell was written since the last relaxation pass.
    pub fn any_modified(&self) -> (r: bool)
        ensures
            r <==> !bits_of(self.modified).is_empty(),
    {
        !self.modified.is_clear()
    }

    /// Forgets all pending modifications without simulating them.
    pub fn clear_modified(&mut self)
        requires
            old(self).wf(),
        ensures
            final(self).wf(),
            *final(self) == (VoxelSim {
                modified: final(self).modified,
                ..*old(self)
            }),
            bits_of(final(self).modified) == Set::<int>::empty(),
            bit_capacity(final(self).modified) == bit_capacity(old(self).modified),
    {
        self.modified.clear();
    }

    /// Writes `voxel` at `pos`, marking the cell modified and the volume in
    /// need of a remesh. A no-op when `pos` is out of bounds.
    ///
    /// This is the sole mutation primitive: digging and filling are both
    /// expressed through it.
    pub fn set(&mut self, pos: Pos3, voxel: Voxel)
        requires
            old(self).wf(),
        ensures
            final(self).wf(),
            final(self).bounds == old(self).bounds,
            !spec_in_bounds(old(self).bounds, pos) ==> *final(self) == *old(self),
            spec_in_bounds(old(self).bounds, pos) ==> {
                &&& final(self).voxels@ == old(self).voxels@.update(
                    spec_linearize(old(self).bounds, pos),
                    voxel,
                )
                &&& bits_of(final(self).modified) == bits_of(old(self).modified).insert(
                    spec_linearize(old(self).bounds, pos),
                )
                &&& bit_capacity(final(self).modified) == bit_capacity(old(self).modified)
                &&& final(self).needs_remesh == true
            },
    {
        if !self.in_bounds(pos) {
            return ;
        }
        let index = self.linearize(pos);
        self.voxels[index] = voxel;
        self.mark_modified(index);
        self.needs_remesh = true;
    }

    /// The number of `Air` cells and the total number of cells: the air
    /// ratio of the volume as an exact fraction.
    pub fn air_ratio(&self) -> (r: (usize, usize))
        requires
            self.wf(),
        ensures
            r.0 == count_air(self.voxels@),
            r.1 == spec_volume(self.bounds),
            r.0 <= r.1,
    {
        let total = self.voxels.len();
        let mut air: usize = 0;
        for i in 0..total
            invariant
                total == self.voxels@.len(),
                air == count_air_to(self.voxels@, i as int),
                air <= i,
        {
            if self.voxels[i] == Voxel::Air {
                air = air + 1;
            }
        }
        proof {
            lemma_count_air_bounds(self.voxels@, total as int);
        }
        (air, total)
    }

    /// Reads and clears the "needs remesh" flag, coalescing any number of
    /// edits and automaton moves into a single rebuild.
    pub fn take_needs_remesh(&mut self) -> (r: bool)
        requires
            old(self).wf(),
        ensures
            final(self).wf(),
            r == old(self).needs_remesh,
            *final(self) == (VoxelSim { needs_remesh: false, ..*old(self) }),
    {
        let r = self.needs_remesh;
        self.needs_remesh = false;
        r
    }

    /// The voxelized collision-shape description: the positions of every
    /// non-`Air` cell, or `None` when the volume is entirely empty, so that
    /// a caller removes the collision shape instead of submitting an empty
    /// one.
    pub fn collider_positions(&self) -> (r: Option<Vec<Pos3>>)
        requires
            self.wf(),
        ensures
            r is Some <==> exists|j: int|
                0 <= j < spec_volume(self.bounds) && self.voxels@[j] != Voxel::Air,
            r matches Some(v) ==> v@ == solid_positions_to(
                self.bounds,
                self.voxels@,
                spec_volume(self.bounds),
            ),
    {
        let total = self.voxels.len();
        let mut positions: Vec<Pos3> = Vec::new();
        for i in 0..total
            invariant
                self.wf(),
                total == self.voxels@.len(),
                positions@ == solid_positions_to(self.bounds, self.voxels@, i as int),
        {
            if self.voxels[i] != Voxel::Air {
                let pos = self.delinearize(i);
                positions.push(pos);
            }
        }
        proof {
            lemma_solid_positions_empty(self.bounds, self.voxels@, total as int);
        }
        if positions.is_empty() {
            None
        } else {
            Some(positions)
        }
    }
}

} // verus!
