//! Grid coordinates and the linearization scheme.
//!
//! Cells are addressed either by a three-component position or by a flat
//! index into the cell buffer. The linearization is z-fastest, then x, then
//! y: `index = z + x * bounds.z + y * bounds.x * bounds.z`.

use vstd::arithmetic::div_mod::lemma_fundamental_div_mod_converse;
use vstd::prelude::*;

verus! {

/// A position in the grid, or the integer extents of a grid.
///
/// Components may be negative when the value denotes a candidate position:
/// out-of-bounds candidates are rejected by `in_bounds`.
#[derive(Clone, Copy, PartialEq, Eq, Structural, Debug)]
pub struct Pos3 {
    pub x: i32,
    pub y: i32,
    pub z: i32,
}

impl Pos3 {
    pub fn new(x: i32, y: i32, z: i32) -> (r: Pos3)
        ensures
            r == (Pos3 { x, y, z }),
    {
        Pos3 { x, y, z }
    }
}

/// Well-formed grid extents: at least one cell per axis, and a total cell
/// count that fits the index arithmetic below.
pub open spec fn wf_bounds(b: Pos3) -> bool {
    &&& 1 <= b.x
    &&& 1 <= b.y
    &&& 1 <= b.z
    &&& b.x * b.y * b.z <= i32::MAX
}

/// Number of cells of a grid with extents `b`.
pub open spec fn spec_volume(b: Pos3) -> int {
    b.x * b.y * b.z
}

/// Whether `p` lies inside a grid with extents `b`, componentwise.
pub open spec fn spec_in_bounds(b: Pos3, p: Pos3) -> bool {
    &&& 0 <= p.x < b.x
    &&& 0 <= p.y < b.y
    &&& 0 <= p.z < b.z
}

/// The flat index of position `p` in a grid with extents `b`.
pub open spec fn spec_linearize(b: Pos3, p: Pos3) -> int {
    p.z + p.x * b.z + p.y * b.x * b.z
}

/// The position whose flat index is `index` in a grid with extents `b`.
pub open spec fn spec_delinearize(b: Pos3, index: int) -> Pos3 {
    Pos3 {
        x: ((index / (b.z as int)) % (b.x as int)) as i32,
        y: (index / (b.x * b.z)) as i32,
        z: (index % (b.z as int)) as i32,
    }
}

/// The flat index of an in-bounds position is a valid cell index.
pub proof fn lemma_linearize_in_range(b: Pos3, p: Pos3)
    requires
        wf_bounds(b),
        spec_in_bounds(b, p),
    ensures
        0 <= spec_linearize(b, p) < spec_volume(b),
{
    assert(0 <= p.z + p.x * b.z + p.y * b.x * b.z < b.x * b.y * b.z) by (nonlinear_arith)
        requires
            1 <= b.x && 1 <= b.y && 1 <= b.z,
            0 <= p.x < b.x && 0 <= p.y < b.y && 0 <= p.z < b.z,
    ;
}

/// Linearization round-trip: delinearizing the flat index of an in-bounds
/// position gives back that position.
pub proof fn lemma_linearize_round_trip(b: Pos3, p: Pos3)
    requires
        wf_bounds(b),
        spec_in_bounds(b, p),
    ensures
        spec_delinearize(b, spec_linearize(b, p)) == p,
{
    let i = spec_linearize(b, p);
    assert(p.z + p.x * b.z + p.y * b.x * b.z == (p.x + p.y * b.x) * b.z + p.z) by (nonlinear_arith);
    lemma_fundamental_div_mod_converse(i, b.z as int, p.x + p.y * b.x, p.z as int);
    assert(i % (b.z as int) == p.z && i / (b.z as int) == p.x + p.y * b.x);
    lemma_fundamental_div_mod_converse(p.x + p.y * b.x, b.x as int, p.y as int, p.x as int);
    assert((i / (b.z as int)) % (b.x as int) == p.x);
    assert(p.z + p.x * b.z + p.y * b.x * b.z == p.y * (b.x * b.z) + (p.z + p.x * b.z))
        by (nonlinear_arith);
    assert(0 <= p.z + p.x * b.z < b.x * b.z) by (nonlinear_arith)
        requires
            1 <= b.x && 1 <= b.z,
            0 <= p.x < b.x && 0 <= p.z < b.z,
    ;
    lemma_fundamental_div_mod_converse(i, b.x * b.z, p.y as int, p.z + p.x * b.z);
    assert(i / (b.x * b.z) == p.y);
}

/// Delinearization round-trip: a valid cell index delinearizes to an
/// in-bounds position whose flat index is that index.
pub proof fn lemma_delinearize_round_trip(b: Pos3, index: int)
    requires
        wf_bounds(b),
        0 <= index < spec_volume(b),
    ensures
        spec_in_bounds(b, spec_delinearize(b, index)),
        spec_linearize(b, spec_delinearize(b, index)) == index,
{
    let x = (index / (b.z as int)) % (b.x as int);
    let y = index / (b.x * b.z);
    let z = index % (b.z as int);
    assert(0 <= z < b.z && 0 <= x < b.x && 0 <= y < b.y && index == z + x * b.z + y * b.x * b.z)
        by (nonlinear_arith)
        requires
            1 <= b.x && 1 <= b.y && 1 <= b.z,
            0 <= index < b.x * b.y * b.z,
            x == (index / (b.z as int)) % (b.x as int),
            y == index / (b.x * b.z),
            z == index % (b.z as int),
    ;
}

/// Whether `p` lies inside a grid with extents `b`.
pub fn in_bounds(bounds: Pos3, pos: Pos3) -> (r: bool)
    ensures
        r == spec_in_bounds(bounds, pos),
{
    pos.x >= 0 && pos.x < bounds.x && pos.y >= 0 && pos.y < bounds.y && pos.z >= 0
        && pos.z < bounds.z
}

/// The flat index of the in-bounds position `pos`.
pub fn linearize(bounds: Pos3, pos: Pos3) -> (r: usize)
    requires
        wf_bounds(bounds),
        spec_in_bounds(bounds, pos),
    ensures
        r == spec_linearize(bounds, pos),
        r < spec_volume(bounds),
{
    proof {
        lemma_linearize_in_range(bounds, pos);
        assert(0 <= pos.x * bounds.z && 0 <= pos.y * bounds.x
            && pos.y * bounds.x <= bounds.x * bounds.y * bounds.z
            && pos.y * bounds.x * bounds.z <= bounds.x * bounds.y * bounds.z
            && pos.z + pos.x * bounds.z <= bounds.x * bounds.y * bounds.z) by (nonlinear_arith)
            requires
                1 <= bounds.x && 1 <= bounds.y && 1 <= bounds.z,
                0 <= pos.x < bounds.x && 0 <= pos.y < bounds.y && 0 <= pos.z < bounds.z,
        ;
    }
    (pos.z as usize) + (pos.x as usize) * (bounds.z as usize)
        + (pos.y as usize) * (bounds.x as usize) * (bounds.z as usize)
}

/// The position of the valid cell index `index`.
pub fn delinearize(bounds: Pos3, index: usize) -> (r: Pos3)
    requires
        wf_bounds(bounds),
        index < spec_volume(bounds),
    ensures
        r == spec_delinearize(bounds, index as int),
        spec_in_bounds(bounds, r),
        spec_linearize(bounds, r) == index,
{
    proof {
        lemma_delinearize_round_trip(bounds, index as int);
        assert(1 <= bounds.x * bounds.z <= bounds.x * bounds.y * bounds.z) by (nonlinear_arith)
            requires
                1 <= bounds.x && 1 <= bounds.y && 1 <= bounds.z,
        ;
    }
    let bx = bounds.x as usize;
    let bz = bounds.z as usize;
    let z = index % bz;
    let x = (index / bz) % bx;
    let y = index / (bx * bz);
    Pos3 { x: x as i32, y: y as i32, z: z as i32 }
}

} // verus!
