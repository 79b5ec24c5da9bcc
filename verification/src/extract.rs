//! Per-material scalar-field sampling for isosurface extraction.
//!
//! For each granular material the grid is turned into a padded occupancy
//! field: one cell of padding on the negative side and two on the positive
//! side of each axis, because a dual-contouring pass does not emit faces on
//! its maximum boundary. A field entry is `true` exactly at the (shifted)
//! grid cells holding the material; a downstream consumer maps `true` to a
//! negative and `false` to a positive signed distance.
//!
//! The field is linearized x-fastest, then y, then z — the layout the
//! extraction consumer expects — by reusing the grid's z-fastest index math
//! under a rotation of the axes.

use crate::coords::{
    delinearize, lemma_linearize_in_range, spec_delinearize, spec_linearize, spec_volume,
    wf_bounds, Pos3,
};
use crate::grid::{count_air, lemma_count_air_full, VoxelSim};
use crate::voxel::Voxel;
use vstd::prelude::*;

verus! {

/// Rotates the axes so that the grid's z-fastest linearization, applied to
/// the rotated value, walks the original axes x-fastest.
pub open spec fn rot(p: Pos3) -> Pos3 {
    Pos3 { x: p.y, y: p.z, z: p.x }
}

/// Inverse of `rot`.
pub open spec fn rot_inv(p: Pos3) -> Pos3 {
    Pos3 { x: p.z, y: p.x, z: p.y }
}

/// The dimensions of the padded field of a grid with extents `b`.
pub open spec fn field_dims(b: Pos3) -> Pos3 {
    Pos3 { x: (b.x + 3) as i32, y: (b.y + 3) as i32, z: (b.z + 3) as i32 }
}

/// The field position of flat field index `f`, x-fastest.
pub open spec fn field_delinearize(d: Pos3, f: int) -> Pos3 {
    rot_inv(spec_delinearize(rot(d), f))
}

/// The value of the padded field of material `mat` at field position `p`:
/// `true` exactly when `p` is a grid cell shifted by the one-cell negative
/// padding and that cell holds `mat`.
pub open spec fn field_value(b: Pos3, cells: Seq<Voxel>, mat: Voxel, p: Pos3) -> bool {
    &&& 1 <= p.x <= b.x
    &&& 1 <= p.y <= b.y
    &&& 1 <= p.z <= b.z
    &&& cells[spec_linearize(
        b,
        Pos3 { x: (p.x - 1) as i32, y: (p.y - 1) as i32, z: (p.z - 1) as i32 },
    )] == mat
}

/// A padded occupancy field for one material, ready to be mapped to signed
/// distances and contoured.
pub struct SampleField {
    /// Field dimensions: the grid extents plus three per axis.
    pub dims: Pos3,
    /// Occupancy, linearized x-fastest: `true` is inside the surface.
    pub inside: Vec<bool>,
}

impl SampleField {
    /// Structural agreement with a grid of extents `b`.
    pub open spec fn wf_for(self, b: Pos3) -> bool {
        &&& self.dims == field_dims(b)
        &&& self.inside@.len() == spec_volume(field_dims(b))
    }

    /// Every entry equals the field value of `mat` at its position.
    pub open spec fn matches_grid(self, b: Pos3, cells: Seq<Voxel>, mat: Voxel) -> bool {
        forall|f: int|
            0 <= f < self.inside@.len() ==> self.inside@[f] == field_value(
                b,
                cells,
                mat,
                field_delinearize(field_dims(b), f),
            )
    }
}

impl VoxelSim {
    /// Builds the padded occupancy field of one material.
    fn build_field(&self, mat: Voxel) -> (r: SampleField)
        requires
            self.wf(),
            (self.bounds.x + 3) * (self.bounds.y + 3) * (self.bounds.z + 3) <= i32::MAX,
        ensures
            r.wf_for(self.bounds),
            r.matches_grid(self.bounds, self.voxels@, mat),
    {
        let ghost b = self.bounds;
        proof {
            assert((b.y + 3) * (b.z + 3) * (b.x + 3) == (b.x + 3) * (b.y + 3) * (b.z + 3) && b.x + 3
                <= (b.x + 3) * (b.y + 3) * (b.z + 3) && b.y + 3 <= (b.x + 3) * (b.y + 3) * (b.z + 3)
                && b.z + 3 <= (b.x + 3) * (b.y + 3) * (b.z + 3) && (b.x + 3) * (b.y + 3) <= (b.x + 3)
                * (b.y + 3) * (b.z + 3)) by (nonlinear_arith)
                requires
                    1 <= b.x && 1 <= b.y && 1 <= b.z,
            ;
        }
        let d = Pos3 {
            x: self.bounds.x + 3,
            y: self.bounds.y + 3,
            z: self.bounds.z + 3,
        };
        let rd = Pos3 { x: d.y, y: d.z, z: d.x };
        proof {
            assert(d == field_dims(b) && rd == rot(field_dims(b)));
            assert(wf_bounds(rd));
            assert(spec_volume(field_dims(b)) == (b.x + 3) * (b.y + 3) * (b.z + 3));
        }
        let field_total = (d.x as usize) * (d.y as usize) * (d.z as usize);
        let mut inside: Vec<bool> = Vec::new();
        let mut f: usize = 0;
        while f < field_total
            invariant
                self.wf(),
                self.bounds == b,
                d == field_dims(b),
                rd == rot(field_dims(b)),
                wf_bounds(rd),
                field_total == spec_volume(field_dims(b)),
                spec_volume(rd) == field_total,
                f <= field_total,
                inside@.len() == f,
                forall|t: int|
                    0 <= t < f ==> inside@[t] == field_value(
                        b,
                        self.voxels@,
                        mat,
                        field_delinearize(field_dims(b), t),
                    ),
            decreases field_total - f,
        {
            let rp = delinearize(rd, f);
            let p = Pos3 { x: rp.z, y: rp.x, z: rp.y };
            proof {
                assert(p == field_delinearize(field_dims(b), f as int));
            }
            let value = if p.x >= 1 && p.x <= self.bounds.x && p.y >= 1 && p.y <= self.bounds.y
                && p.z >= 1 && p.z <= self.bounds.z {
                let q = Pos3 { x: p.x - 1, y: p.y - 1, z: p.z - 1 };
                let index = self.linearize(q);
                self.voxels[index] == mat
            } else {
                false
            };
            inside.push(value);
            f = f + 1;
        }
        SampleField { dims: d, inside }
    }

    /// Builds the padded occupancy fields for the meshed materials, one per
    /// material, in the fixed order `Sand`, `Dirt`.
    pub fn sample(&self) -> (r: Vec<(Voxel, SampleField)>)
        requires
            self.wf(),
            (self.bounds.x + 3) * (self.bounds.y + 3) * (self.bounds.z + 3) <= i32::MAX,
        ensures
            r@.len() == 2,
            r@[0].0 == Voxel::Sand,
            r@[1].0 == Voxel::Dirt,
            forall|t: int|
                0 <= t < 2 ==> (#[trigger] r@[t]).1.wf_for(self.bounds) && r@[t].1.matches_grid(
                    self.bounds,
                    self.voxels@,
                    r@[t].0,
                ),
    {
        let mut r: Vec<(Voxel, SampleField)> = Vec::new();
        let sand = self.build_field(Voxel::Sand);
        r.push((Voxel::Sand, sand));
        let dirt = self.build_field(Voxel::Dirt);
        r.push((Voxel::Dirt, dirt));
        r
    }
}

/// Extraction emptiness: the field of any non-`Air` material over a grid
/// whose air count equals its cell count has no inside entry, so the
/// isosurface extracted from it is empty.
pub proof fn lemma_full_air_extraction_empty(
    b: Pos3,
    cells: Seq<Voxel>,
    mat: Voxel,
    field: SampleField,
)
    requires
        wf_bounds(b),
        cells.len() == spec_volume(b),
        count_air(cells) == cells.len(),
        mat != Voxel::Air,
        field.wf_for(b),
        field.matches_grid(b, cells, mat),
    ensures
        forall|f: int| 0 <= f < field.inside@.len() ==> !field.inside@[f],
{
    lemma_count_air_full(cells, cells.len() as int);
    assert forall|f: int| 0 <= f < field.inside@.len() implies !field.inside@[f] by {
        let p = field_delinearize(field_dims(b), f);
        if field_value(b, cells, mat, p) {
            let q = Pos3 { x: (p.x - 1) as i32, y: (p.y - 1) as i32, z: (p.z - 1) as i32 };
            lemma_linearize_in_range(b, q);
            assert(cells[spec_linearize(b, q)] == Voxel::Air);
        }
    }
}

} // verus!
