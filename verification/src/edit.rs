//! Radius edits: the tool-level entry point for digging and filling.
//!
//! `set_region` walks a cube of side `2 * radius + 1` around a center cell
//! and writes every cell whose Euclidean distance to the center is within
//! the radius, via the `set` primitive. The distance test compares squared
//! integers, so the general entry point `set_region_sq` takes the squared
//! threshold separately: a fractional world-space radius `p` is expressed
//! exactly as `radius = floor(p)`, `radius_sq = floor(p * p)`.

use crate::coords::{spec_delinearize, spec_linearize, spec_volume, Pos3};
use crate::bitset::{bit_capacity, bits_of};
use crate::grid::VoxelSim;
use crate::voxel::Voxel;
use vstd::prelude::*;

verus! {

/// Whether the squared distance from `center` to `p` is at most `rsq`.
pub open spec fn in_ball(center: Pos3, rsq: int, p: Pos3) -> bool {
    let dx = p.x - center.x;
    let dy = p.y - center.y;
    let dz = p.z - center.z;
    dx * dx + dy * dy + dz * dz <= rsq
}

/// Whether `p` lies in the closed ball of the given whole radius around
/// `center`. A negative radius contains nothing: the edit is a no-op then.
pub open spec fn in_sphere(center: Pos3, radius: int, p: Pos3) -> bool {
    0 <= radius && in_ball(center, radius * radius, p)
}

/// The cell buffer after a squared-threshold edit: every cell within the
/// threshold holds `m`, every other cell is unchanged.
pub open spec fn ball_write(b: Pos3, cells: Seq<Voxel>, center: Pos3, rsq: int, m: Voxel) -> Seq<
    Voxel,
> {
    Seq::new(
        cells.len(),
        |j: int|
            if in_ball(center, rsq, spec_delinearize(b, j)) {
                m
            } else {
                cells[j]
            },
    )
}

/// The valid cell indices a squared-threshold edit writes.
pub open spec fn ball_indices(b: Pos3, center: Pos3, rsq: int) -> Set<int> {
    Set::new(|j: int| 0 <= j < spec_volume(b) && in_ball(center, rsq, spec_delinearize(b, j)))
}

/// The cell buffer after a whole-radius edit: every in-sphere cell holds
/// `m`, every other cell is unchanged.
pub open spec fn region_write(b: Pos3, cells: Seq<Voxel>, center: Pos3, radius: int, m: Voxel) -> Seq<
    Voxel,
> {
    Seq::new(
        cells.len(),
        |j: int|
            if in_sphere(center, radius, spec_delinearize(b, j)) {
                m
            } else {
                cells[j]
            },
    )
}

/// The valid cell indices a whole-radius edit writes.
pub open spec fn region_indices(b: Pos3, center: Pos3, radius: int) -> Set<int> {
    Set::new(
        |j: int| 0 <= j < spec_volume(b) && in_sphere(center, radius, spec_delinearize(b, j)),
    )
}

/// When the squared threshold stays below the next whole radius, every
/// component of an in-threshold offset is within the radius, so the cube
/// walk covers the whole ball.
proof fn lemma_ball_bounds(center: Pos3, radius: int, rsq: int, p: Pos3)
    by (nonlinear_arith)
    requires
        0 <= radius,
        rsq < (radius + 1) * (radius + 1),
        in_ball(center, rsq, p),
    ensures
        -radius <= p.x - center.x <= radius,
        -radius <= p.y - center.y <= radius,
        -radius <= p.z - center.z <= radius,
{
}

/// Lexicographic order on cube offsets: the iteration order of the edit.
spec fn offset_lt(ax: int, ay: int, az: int, dx: int, dy: int, dz: int) -> bool {
    ||| ax < dx
    ||| (ax == dx && ay < dy)
    ||| (ax == dx && ay == dy && az < dz)
}

/// Whether the offset of `p` from `center` was already visited when the
/// cube walk stands at offset `(dx, dy, dz)`.
spec fn visited(center: Pos3, p: Pos3, dx: int, dy: int, dz: int) -> bool {
    offset_lt(p.x - center.x, p.y - center.y, p.z - center.z, dx, dy, dz)
}

/// The cell buffer after the cube walk has processed every offset
/// lexicographically before `(dx, dy, dz)`.
spec fn ball_write_upto(
    b: Pos3,
    cells: Seq<Voxel>,
    center: Pos3,
    rsq: int,
    m: Voxel,
    dx: int,
    dy: int,
    dz: int,
) -> Seq<Voxel> {
    Seq::new(
        cells.len(),
        |j: int|
            if in_ball(center, rsq, spec_delinearize(b, j)) && visited(
                center,
                spec_delinearize(b, j),
                dx,
                dy,
                dz,
            ) {
                m
            } else {
                cells[j]
            },
    )
}

/// The valid cell indices written once the cube walk has processed every
/// offset lexicographically before `(dx, dy, dz)`.
spec fn ball_upto(b: Pos3, center: Pos3, rsq: int, dx: int, dy: int, dz: int) -> Set<int> {
    Set::new(
        |j: int|
            0 <= j < spec_volume(b) && in_ball(center, rsq, spec_delinearize(b, j)) && visited(
                center,
                spec_delinearize(b, j),
                dx,
                dy,
                dz,
            ),
    )
}

impl VoxelSim {
    /// Writes `voxel` at every cell whose squared distance to `center` is
    /// at most `radius_sq`; cells outside the volume are skipped. The cube
    /// walked has half-side `radius`, which must bracket the threshold, so
    /// a fractional world-space radius is expressed exactly by flooring it
    /// and its square.
    pub fn set_region_sq(&mut self, center: Pos3, radius: i32, radius_sq: i64, voxel: Voxel)
        requires
            old(self).wf(),
            0 <= radius,
            radius * radius <= radius_sq < (radius + 1) * (radius + 1),
        ensures
            final(self).wf(),
            final(self).bounds == old(self).bounds,
            final(self).voxels@ == ball_write(
                old(self).bounds,
                old(self).voxels@,
                center,
                radius_sq as int,
                voxel,
            ),
            bits_of(final(self).modified) == bits_of(old(self).modified).union(
                ball_indices(old(self).bounds, center, radius_sq as int),
            ),
            bit_capacity(final(self).modified) == bit_capacity(old(self).modified),
            final(self).needs_remesh == (old(self).needs_remesh || !ball_indices(
                old(self).bounds,
                center,
                radius_sq as int,
            ).is_empty()),
    {
        let ghost b = self.bounds;
        let ghost cells0 = self.voxels@;
        let ghost bits0 = bits_of(self.modified);
        let ghost nr0 = self.needs_remesh;
        let ghost rr = radius as int;
        let ghost rsq = radius_sq as int;
        let r = radius as i64;

        proof {
            assert(self.voxels@ =~= ball_write_upto(b, cells0, center, rsq, voxel, -rr, -rr, -rr))
                by {
                assert forall|j: int|
                    0 <= j < cells0.len() && in_ball(
                        center,
                        rsq,
                        spec_delinearize(b, j),
                    ) implies !visited(center, spec_delinearize(b, j), -rr, -rr, -rr) by {
                    lemma_ball_bounds(center, rr, rsq, spec_delinearize(b, j));
                }
            }
            assert(bits_of(self.modified) =~= bits0.union(ball_upto(b, center, rsq, -rr, -rr, -rr)))
                by {
                assert forall|j: int|
                    0 <= j < spec_volume(b) && in_ball(
                        center,
                        rsq,
                        spec_delinearize(b, j),
                    ) implies !visited(center, spec_delinearize(b, j), -rr, -rr, -rr) by {
                    lemma_ball_bounds(center, rr, rsq, spec_delinearize(b, j));
                }
            }
            assert(ball_upto(b, center, rsq, -rr, -rr, -rr) =~= Set::<int>::empty()) by {
                assert forall|j: int|
                    0 <= j < spec_volume(b) && in_ball(
                        center,
                        rsq,
                        spec_delinearize(b, j),
                    ) implies !visited(center, spec_delinearize(b, j), -rr, -rr, -rr) by {
                    lemma_ball_bounds(center, rr, rsq, spec_delinearize(b, j));
                }
            }
        }

        let mut dx: i64 = -r;
        while dx <= r
            invariant
                self.wf(),
                self.bounds == b,
                0 <= rr <= 0x7fffffff,
                rsq < (rr + 1) * (rr + 1),
                rsq == radius_sq as int,
                r == rr,
                -r <= dx <= r + 1,
                cells0.len() == spec_volume(b),
                bit_capacity(self.modified) == bit_capacity(old(self).modified),
                self.voxels@ == ball_write_upto(b, cells0, center, rsq, voxel, dx as int, -rr, -rr),
                bits_of(self.modified) == bits0.union(
                    ball_upto(b, center, rsq, dx as int, -rr, -rr),
                ),
                self.needs_remesh == (nr0 || !ball_upto(b, center, rsq, dx as int, -rr, -rr).is_empty()),
            decreases r + 1 - dx,
        {
            let mut dy: i64 = -r;
            while dy <= r
                invariant
                    self.wf(),
                    self.bounds == b,
                    0 <= rr <= 0x7fffffff,
                    rsq < (rr + 1) * (rr + 1),
                    rsq == radius_sq as int,
                    r == rr,
                    -r <= dx <= r,
                    -r <= dy <= r + 1,
                    cells0.len() == spec_volume(b),
                    bit_capacity(self.modified) == bit_capacity(old(self).modified),
                    self.voxels@ == ball_write_upto(
                        b,
                        cells0,
                        center,
                        rsq,
                        voxel,
                        dx as int,
                        dy as int,
                        -rr,
                    ),
                    bits_of(self.modified) == bits0.union(
                        ball_upto(b, center, rsq, dx as int, dy as int, -rr),
                    ),
                    self.needs_remesh == (nr0 || !ball_upto(
                        b,
                        center,
                        rsq,
                        dx as int,
                        dy as int,
                        -rr,
                    ).is_empty()),
                decreases r + 1 - dy,
            {
                let mut dz: i64 = -r;
                while dz <= r
                    invariant
                        self.wf(),
                        self.bounds == b,
                        0 <= rr <= 0x7fffffff,
                        rsq < (rr + 1) * (rr + 1),
                        rsq == radius_sq as int,
                        r == rr,
                        -r <= dx <= r,
                        -r <= dy <= r,
                        -r <= dz <= r + 1,
                        cells0.len() == spec_volume(b),
                        bit_capacity(self.modified) == bit_capacity(old(self).modified),
                        self.voxels@ == ball_write_upto(
                            b,
                            cells0,
                            center,
                            rsq,
                            voxel,
                            dx as int,
                            dy as int,
                            dz as int,
                        ),
                        bits_of(self.modified) == bits0.union(
                            ball_upto(b, center, rsq, dx as int, dy as int, dz as int),
                        ),
                        self.needs_remesh == (nr0 || !ball_upto(
                            b,
                            center,
                            rsq,
                            dx as int,
                            dy as int,
                            dz as int,
                        ).is_empty()),
                    decreases r + 1 - dz,
                {
                    proof {
                        assert(0 <= (dx as int) * (dx as int) <= 0x4000000000000000 && 0 <= (
                        dy as int) * (dy as int) <= 0x4000000000000000 && 0 <= (dz as int) * (
                        dz as int) <= 0x4000000000000000 && 0 <= (r as int) * (r as int)
                            <= 0x4000000000000000)
                            by (nonlinear_arith)
                            requires
                                -0x80000000 <= dx as int <= 0x80000000,
                                -0x80000000 <= dy as int <= 0x80000000,
                                -0x80000000 <= dz as int <= 0x80000000,
                                0 <= r as int <= 0x80000000,
                        ;
                    }
                    let dist_sq = (dx as i128) * (dx as i128) + (dy as i128) * (dy as i128) + (
                    dz as i128) * (dz as i128);
                    if dist_sq <= radius_sq as i128 {
                        let tx = center.x as i64 + dx;
                        let ty = center.y as i64 + dy;
                        let tz = center.z as i64 + dz;
                        let inside = 0 <= tx && tx < self.bounds.x as i64 && 0 <= ty && ty
                            < self.bounds.y as i64 && 0 <= tz && tz < self.bounds.z as i64;
                        if inside {
                            let p = Pos3 { x: tx as i32, y: ty as i32, z: tz as i32 };
                            self.set(p, voxel);
                            proof {
                                let l = spec_linearize(b, p);
                                crate::coords::lemma_linearize_in_range(b, p);
                                crate::coords::lemma_linearize_round_trip(b, p);
                                assert forall|j: int|
                                    0 <= j < cells0.len() && j != l implies spec_delinearize(
                                    b,
                                    j,
                                ) != p by {
                                    crate::coords::lemma_delinearize_round_trip(b, j);
                                }
                                assert(self.voxels@ =~= ball_write_upto(
                                    b,
                                    cells0,
                                    center,
                                    rsq,
                                    voxel,
                                    dx as int,
                                    dy as int,
                                    dz as int + 1,
                                ));
                                assert(bits_of(self.modified) =~= bits0.union(
                                    ball_upto(b, center, rsq, dx as int, dy as int, dz as int + 1),
                                ));
                                assert(ball_upto(
                                    b,
                                    center,
                                    rsq,
                                    dx as int,
                                    dy as int,
                                    dz as int + 1,
                                ).contains(l));
                            }
                        } else {
                            proof {
                                assert forall|j: int| 0 <= j < cells0.len() implies !(
                                spec_delinearize(b, j).x == tx as int && spec_delinearize(b, j).y
                                    == ty as int && spec_delinearize(b, j).z == tz as int) by {
                                    crate::coords::lemma_delinearize_round_trip(b, j);
                                }
                                assert(self.voxels@ =~= ball_write_upto(
                                    b,
                                    cells0,
                                    center,
                                    rsq,
                                    voxel,
                                    dx as int,
                                    dy as int,
                                    dz as int + 1,
                                ));
                                assert(bits_of(self.modified) =~= bits0.union(
                                    ball_upto(b, center, rsq, dx as int, dy as int, dz as int + 1),
                                ));
                            }
                        }
                    } else {
                        proof {
                            assert(self.voxels@ =~= ball_write_upto(
                                b,
                                cells0,
                                center,
                                rsq,
                                voxel,
                                dx as int,
                                dy as int,
                                dz as int + 1,
                            ));
                            assert(bits_of(self.modified) =~= bits0.union(
                                ball_upto(b, center, rsq, dx as int, dy as int, dz as int + 1),
                            ));
                        }
                    }
                    dz = dz + 1;
                }
                proof {
                    assert forall|j: int|
                        0 <= j < cells0.len() && in_ball(
                            center,
                            rsq,
                            spec_delinearize(b, j),
                        ) implies (visited(center, spec_delinearize(b, j), dx as int, dy as int, rr + 1)
                        == visited(center, spec_delinearize(b, j), dx as int, dy as int + 1, -rr)) by {
                        lemma_ball_bounds(center, rr, rsq, spec_delinearize(b, j));
                    }
                    assert(ball_write_upto(b, cells0, center, rsq, voxel, dx as int, dy as int, rr + 1)
                        =~= ball_write_upto(
                        b,
                        cells0,
                        center,
                        rsq,
                        voxel,
                        dx as int,
                        dy as int + 1,
                        -rr,
                    ));
                    assert(ball_upto(b, center, rsq, dx as int, dy as int, rr + 1) =~= ball_upto(
                        b,
                        center,
                        rsq,
                        dx as int,
                        dy as int + 1,
                        -rr,
                    ));
                }
                dy = dy + 1;
            }
            proof {
                assert forall|j: int|
                    0 <= j < cells0.len() && in_ball(
                        center,
                        rsq,
                        spec_delinearize(b, j),
                    ) implies (visited(center, spec_delinearize(b, j), dx as int, rr + 1, -rr)
                    == visited(center, spec_delinearize(b, j), dx as int + 1, -rr, -rr)) by {
                    lemma_ball_bounds(center, rr, rsq, spec_delinearize(b, j));
                }
                assert(ball_write_upto(b, cells0, center, rsq, voxel, dx as int, rr + 1, -rr)
                    =~= ball_write_upto(b, cells0, center, rsq, voxel, dx as int + 1, -rr, -rr));
                assert(ball_upto(b, center, rsq, dx as int, rr + 1, -rr) =~= ball_upto(
                    b,
                    center,
                    rsq,
                    dx as int + 1,
                    -rr,
                    -rr,
                ));
            }
            dx = dx + 1;
        }
        proof {
            assert forall|j: int|
                0 <= j < cells0.len() && in_ball(
                    center,
                    rsq,
                    spec_delinearize(b, j),
                ) implies visited(center, spec_delinearize(b, j), rr + 1, -rr, -rr) by {
                lemma_ball_bounds(center, rr, rsq, spec_delinearize(b, j));
            }
            assert(ball_write_upto(b, cells0, center, rsq, voxel, rr + 1, -rr, -rr) =~= ball_write(
                b,
                cells0,
                center,
                rsq,
                voxel,
            ));
            assert(ball_upto(b, center, rsq, rr + 1, -rr, -rr) =~= ball_indices(b, center, rsq));
        }
    }

    /// Writes `voxel` at every cell within Euclidean distance `radius` of
    /// `center`; cells outside the volume are skipped, and a negative
    /// radius writes nothing. Used with `Voxel::Air` to dig and with a
    /// solid material to fill.
    pub fn set_region(&mut self, center: Pos3, radius: i32, voxel: Voxel)
        requires
            old(self).wf(),
        ensures
            final(self).wf(),
            final(self).bounds == old(self).bounds,
            final(self).voxels@ == region_write(
                old(self).bounds,
                old(self).voxels@,
                center,
                radius as int,
                voxel,
            ),
            bits_of(final(self).modified) == bits_of(old(self).modified).union(
                region_indices(old(self).bounds, center, radius as int),
            ),
            bit_capacity(final(self).modified) == bit_capacity(old(self).modified),
            final(self).needs_remesh == (old(self).needs_remesh || !region_indices(
                old(self).bounds,
                center,
                radius as int,
            ).is_empty()),
    {
        let ghost b = self.bounds;
        if radius < 0 {
            proof {
                assert(self.voxels@ =~= region_write(
                    b,
                    self.voxels@,
                    center,
                    radius as int,
                    voxel,
                ));
                assert(region_indices(b, center, radius as int) =~= Set::<int>::empty());
                assert(bits_of(self.modified) =~= bits_of(self.modified).union(
                    region_indices(b, center, radius as int),
                ));
            }
            return ;
        }
        proof {
            assert(0 <= (radius as int) * (radius as int) && (radius as int) * (radius as int)
                < (radius as int + 1) * (radius as int + 1) && (radius as int + 1) * (radius as int
                + 1) <= 0x8000000000000000) by (nonlinear_arith)
                requires
                    0 <= radius as int <= 0x7fffffff,
            ;
        }
        let radius_sq = (radius as i64) * (radius as i64);
        self.set_region_sq(center, radius, radius_sq, voxel);
        proof {
            assert(region_write(b, old(self).voxels@, center, radius as int, voxel) =~= ball_write(
                b,
                old(self).voxels@,
                center,
                radius_sq as int,
                voxel,
            ));
            assert(region_indices(b, center, radius as int) =~= ball_indices(
                b,
                center,
                radius_sq as int,
            ));
        }
    }
}

/// Radius edits are idempotent for a fixed material: writing the same
/// sphere twice yields the occupancy of writing it once.
pub proof fn lemma_set_region_idempotent(
    b: Pos3,
    cells: Seq<Voxel>,
    center: Pos3,
    radius: int,
    m: Voxel,
)
    ensures
        region_write(b, region_write(b, cells, center, radius, m), center, radius, m)
            == region_write(b, cells, center, radius, m),
{
    assert(region_write(b, region_write(b, cells, center, radius, m), center, radius, m)
        =~= region_write(b, cells, center, radius, m));
}

} // verus!
