//! The dirty work set of the automaton.
//!
//! Each simulation pass rebuilds this set from the grid's modified cells by
//! 18-connected dilation (6 face and 12 edge neighbors): every neighbor of
//! a modified cell becomes a candidate for re-evaluation, because a falling
//! voxel can open support for diagonal neighbors.

use crate::bitset::{bit_capacity, bits_of, collect_ones};
use crate::coords::{
    delinearize, in_bounds, linearize, lemma_delinearize_round_trip, lemma_linearize_round_trip,
    spec_delinearize, spec_in_bounds, spec_linearize, spec_volume, wf_bounds, Pos3,
};
use vstd::arithmetic::div_mod::lemma_fundamental_div_mod_converse;
use vstd::prelude::*;

verus! {

/// Whether `q` is one of the 18 face or edge neighbors of `p`: within a
/// Chebyshev distance of one, but neither `p` itself nor a corner.
pub open spec fn is_neighbor18(p: Pos3, q: Pos3) -> bool {
    let dx = q.x - p.x;
    let dy = q.y - p.y;
    let dz = q.z - p.z;
    &&& -1 <= dx <= 1
    &&& -1 <= dy <= 1
    &&& -1 <= dz <= 1
    &&& !(dx == 0 && dy == 0 && dz == 0)
    &&& !(dx != 0 && dy != 0 && dz != 0)
}

/// The 18-connected dilation of a set of cell indices: every valid cell
/// index whose position neighbors the position of a member of `s`.
pub open spec fn dilate18(b: Pos3, s: Set<int>) -> Set<int> {
    Set::new(
        |j: int|
            0 <= j < spec_volume(b) && exists|m: int|
                s.contains(m) && 0 <= m < spec_volume(b) && is_neighbor18(
                    spec_delinearize(b, m),
                    #[trigger] spec_delinearize(b, j),
                ),
    )
}

/// The neighbor offsets are enumerated by codes `0..27` (a base-3 digit per
/// axis); these give the offset of code `c`.
spec fn code_dx(c: int) -> int {
    c / 9 - 1
}

spec fn code_dy(c: int) -> int {
    (c / 3) % 3 - 1
}

spec fn code_dz(c: int) -> int {
    c % 3 - 1
}

/// Whether code `c` denotes one of the 18 neighbor offsets: not the zero
/// offset and not a corner.
spec fn code_valid(c: int) -> bool {
    &&& !(code_dx(c) == 0 && code_dy(c) == 0 && code_dz(c) == 0)
    &&& !(code_dx(c) != 0 && code_dy(c) != 0 && code_dz(c) != 0)
}

/// Whether `q` is `p` displaced by the offset of code `c`.
spec fn code_offset_of(p: Pos3, q: Pos3, c: int) -> bool {
    &&& q.x == p.x + code_dx(c)
    &&& q.y == p.y + code_dy(c)
    &&& q.z == p.z + code_dz(c)
}

/// The offset digits of a code in `0..27`.
proof fn lemma_code_digits(c: int)
    requires
        0 <= c < 27,
    ensures
        -1 <= code_dx(c) <= 1,
        -1 <= code_dy(c) <= 1,
        -1 <= code_dz(c) <= 1,
        c == (code_dx(c) + 1) * 9 + (code_dy(c) + 1) * 3 + (code_dz(c) + 1),
{
    let q9 = c / 9;
    let r9 = c % 9;
    lemma_fundamental_div_mod_converse(c, 9, q9, r9);
    let q3 = c / 3;
    let r3 = c % 3;
    lemma_fundamental_div_mod_converse(c, 3, q3, r3);
    lemma_fundamental_div_mod_converse(q3, 3, q3 / 3, q3 % 3);
    assert(c == (q3 / 3) * 9 + (q3 % 3) * 3 + r3) by (nonlinear_arith)
        requires
            c == q3 * 3 + r3,
            q3 == (q3 / 3) * 3 + q3 % 3,
    ;
    assert(q9 == q3 / 3) by {
        lemma_fundamental_div_mod_converse(c, 9, q3 / 3, (q3 % 3) * 3 + r3);
    }
}

/// Each of the 18 neighbor offsets is denoted by exactly the code built
/// from its digits, so neighborship and the code walk coincide.
proof fn lemma_neighbor_code(p: Pos3, q: Pos3)
    ensures
        is_neighbor18(p, q) <==> exists|c: int|
            0 <= c < 27 && #[trigger] code_valid(c) && code_offset_of(p, q, c),
{
    if is_neighbor18(p, q) {
        let c = (q.x - p.x + 1) * 9 + (q.y - p.y + 1) * 3 + (q.z - p.z + 1);
        lemma_code_digits(c);
        assert(code_dx(c) == q.x - p.x && code_dy(c) == q.y - p.y && code_dz(c) == q.z - p.z) by {
            lemma_fundamental_div_mod_converse(c, 9, q.x - p.x + 1, (q.y - p.y + 1) * 3 + (q.z - p.z
                + 1));
            lemma_fundamental_div_mod_converse(c, 3, (q.x - p.x + 1) * 3 + (q.y - p.y + 1), q.z - p.z
                + 1);
            lemma_fundamental_div_mod_converse((q.x - p.x + 1) * 3 + (q.y - p.y + 1), 3, q.x - p.x
                + 1, q.y - p.y + 1);
        }
        assert(0 <= c < 27 && code_valid(c) && code_offset_of(p, q, c));
    }
    if exists|c: int| 0 <= c < 27 && #[trigger] code_valid(c) && code_offset_of(p, q, c) {
        let c = choose|c: int| 0 <= c < 27 && #[trigger] code_valid(c) && code_offset_of(p, q, c);
        lemma_code_digits(c);
    }
}

/// Whether the position of cell `j` neighbors the position of one of the
/// first `upto` entries of `ones`.
spec fn near_prefix(b: Pos3, ones: Seq<usize>, upto: int, j: int) -> bool {
    exists|k: int|
        0 <= k < upto && is_neighbor18(
            spec_delinearize(b, #[trigger] ones[k] as int),
            spec_delinearize(b, j),
        )
}

/// Whether the position of cell `j` is `pos` displaced by one of the valid
/// offsets among the first `upto` codes.
spec fn near_codes(b: Pos3, pos: Pos3, upto: int, j: int) -> bool {
    exists|c: int|
        0 <= c < upto && #[trigger] code_valid(c) && code_offset_of(pos, spec_delinearize(b, j), c)
}

/// The work set of one relaxation pass: a bitset over the cell indices of
/// the grid it was created for.
pub struct DirtyBuffer {
    /// Integer extents of the grid this buffer tracks.
    pub bounds: Pos3,
    /// Cells to re-evaluate this pass.
    pub dirty: fixedbitset::FixedBitSet,
}

impl DirtyBuffer {
    /// Structural invariant: well-formed extents and a bitset over exactly
    /// the grid's index space.
    pub open spec fn wf(self) -> bool {
        &&& wf_bounds(self.bounds)
        &&& bit_capacity(self.dirty) == spec_volume(self.bounds)
        &&& forall|k: int| bits_of(self.dirty).contains(k) ==> 0 <= k < spec_volume(self.bounds)
    }

    /// A fresh, empty work set for a grid with the given extents.
    pub fn new(bounds: Pos3) -> (r: DirtyBuffer)
        requires
            wf_bounds(bounds),
        ensures
            r.wf(),
            r.bounds == bounds,
            bits_of(r.dirty) == Set::<int>::empty(),
    {
        proof {
            assert(bounds.x * bounds.y <= bounds.x * bounds.y * bounds.z) by (nonlinear_arith)
                requires
                    1 <= bounds.x && 1 <= bounds.y && 1 <= bounds.z,
            ;
        }
        let volume = (bounds.x as usize) * (bounds.y as usize) * (bounds.z as usize);
        DirtyBuffer { bounds, dirty: fixedbitset::FixedBitSet::with_capacity(volume) }
    }

    /// The flat index of the in-bounds position `pos`.
    pub fn linearize(&self, pos: Pos3) -> (r: usize)
        requires
            wf_bounds(self.bounds),
            spec_in_bounds(self.bounds, pos),
        ensures
            r == spec_linearize(self.bounds, pos),
            r < spec_volume(self.bounds),
    {
        linearize(self.bounds, pos)
    }

    /// The position of the valid cell index `index`.
    pub fn delinearize(&self, index: usize) -> (r: Pos3)
        requires
            wf_bounds(self.bounds),
            index < spec_volume(self.bounds),
        ensures
            r == spec_delinearize(self.bounds, index as int),
            spec_in_bounds(self.bounds, r),
            spec_linearize(self.bounds, r) == index,
    {
        delinearize(self.bounds, index)
    }

    /// Whether `pos` lies inside the tracked grid.
    pub fn in_bounds(&self, pos: Pos3) -> (r: bool)
        ensures
            r == spec_in_bounds(self.bounds, pos),
    {
        in_bounds(self.bounds, pos)
    }

    /// Adds to the work set every in-bounds 18-connected neighbor of every
    /// cell in `modified`.
    pub fn dilate_modified(&mut self, modified: &fixedbitset::FixedBitSet)
        requires
            old(self).wf(),
            forall|k: int|
                bits_of(*modified).contains(k) ==> 0 <= k < spec_volume(old(self).bounds),
        ensures
            final(self).wf(),
            final(self).bounds == old(self).bounds,
            bit_capacity(final(self).dirty) == bit_capacity(old(self).dirty),
            bits_of(final(self).dirty) == bits_of(old(self).dirty).union(
                dilate18(old(self).bounds, bits_of(*modified)),
            ),
    {
        let ghost b = self.bounds;
        let ghost bits0 = bits_of(self.dirty);
        let ghost ms = bits_of(*modified);
        let ones = collect_ones(modified);
        let n = ones.len();
        for idx in 0..n
            invariant
                self.wf(),
                self.bounds == b,
                bit_capacity(self.dirty) == bit_capacity(old(self).dirty),
                n == ones@.len(),
                forall|k: int| ms.contains(k) ==> 0 <= k < spec_volume(b),
                forall|i: int| 0 <= i < n ==> ms.contains(#[trigger] ones@[i] as int),
                forall|k: int|
                    ms.contains(k) ==> exists|i: int| 0 <= i < n && (#[trigger] ones@[i]) == k,
                forall|j: int|
                    #[trigger] bits_of(self.dirty).contains(j) <==> bits0.contains(j) || (0 <= j
                        < spec_volume(b) && near_prefix(b, ones@, idx as int, j)),
        {
            let m = ones[idx];
            proof {
                assert(ms.contains(ones@[idx as int] as int));
            }
            let pos = self.delinearize(m);
            let ghost before = bits_of(self.dirty);
            for c in 0..27usize
                invariant
                    self.wf(),
                    self.bounds == b,
                    bit_capacity(self.dirty) == bit_capacity(old(self).dirty),
                    pos == spec_delinearize(b, ones@[idx as int] as int),
                    spec_in_bounds(b, pos),
                    forall|j: int|
                        #[trigger] bits_of(self.dirty).contains(j) <==> before.contains(j) || (0 <= j
                            < spec_volume(b) && near_codes(b, pos, c as int, j)),
            {
                proof {
                    lemma_code_digits(c as int);
                }
                let dx = (c / 9) as i32 - 1;
                let dy = ((c / 3) % 3) as i32 - 1;
                let dz = (c % 3) as i32 - 1;
                let valid = !(dx == 0 && dy == 0 && dz == 0) && !(dx != 0 && dy != 0 && dz != 0);
                if valid {
                    let neighbor = Pos3 { x: pos.x + dx, y: pos.y + dy, z: pos.z + dz };
                    if self.in_bounds(neighbor) {
                        let target = self.linearize(neighbor);
                        self.dirty.insert(target);
                        proof {
                            lemma_linearize_round_trip(b, neighbor);
                            assert forall|j: int|
                                #[trigger] bits_of(self.dirty).contains(j) implies before.contains(
                                j,
                            ) || (0 <= j < spec_volume(b) && near_codes(
                                b,
                                pos,
                                c as int + 1,
                                j,
                            )) by {
                                if j == target {
                                    assert(code_valid(c as int) && code_offset_of(
                                        pos,
                                        spec_delinearize(b, j),
                                        c as int,
                                    ));
                                }
                            }
                            assert forall|j: int|
                                before.contains(j) || (0 <= j < spec_volume(b) && near_codes(
                                    b,
                                    pos,
                                    c as int + 1,
                                    j,
                                )) implies #[trigger] bits_of(self.dirty).contains(j) by {
                                if !before.contains(j) && 0 <= j < spec_volume(b) {
                                    let cc = choose|cc: int|
                                        0 <= cc < c as int + 1 && #[trigger] code_valid(cc)
                                            && code_offset_of(pos, spec_delinearize(b, j), cc);
                                    if cc == c as int {
                                        lemma_delinearize_round_trip(b, j);
                                        assert(spec_delinearize(b, j) == neighbor);
                                        assert(j == target);
                                    }
                                }
                            }
                        }
                    } else {
                        proof {
                            assert forall|j: int|
                                0 <= j < spec_volume(b) && near_codes(
                                    b,
                                    pos,
                                    c as int + 1,
                                    j,
                                ) implies near_codes(b, pos, c as int, j) || bits_of(
                                self.dirty,
                            ).contains(j) by {
                                let cc = choose|cc: int|
                                    0 <= cc < c as int + 1 && #[trigger] code_valid(cc)
                                        && code_offset_of(pos, spec_delinearize(b, j), cc);
                                if cc == c as int {
                                    lemma_delinearize_round_trip(b, j);
                                }
                            }
                        }
                    }
                } else {
                    proof {
                        assert forall|j: int|
                            0 <= j < spec_volume(b) && near_codes(
                                b,
                                pos,
                                c as int + 1,
                                j,
                            ) implies near_codes(b, pos, c as int, j) by {
                            let cc = choose|cc: int|
                                0 <= cc < c as int + 1 && #[trigger] code_valid(cc)
                                    && code_offset_of(pos, spec_delinearize(b, j), cc);
                            assert(cc != c as int);
                        }
                    }
                }
            }
            proof {
                assert forall|j: int| 0 <= j < spec_volume(b) implies (near_codes(b, pos, 27, j)
                    <==> is_neighbor18(pos, spec_delinearize(b, j))) by {
                    lemma_neighbor_code(pos, spec_delinearize(b, j));
                }
                assert forall|j: int|
                    #[trigger] bits_of(self.dirty).contains(j) implies bits0.contains(j) || (0 <= j
                    < spec_volume(b) && near_prefix(b, ones@, idx as int + 1, j)) by {
                    if !bits0.contains(j) && 0 <= j < spec_volume(b) {
                        if near_prefix(b, ones@, idx as int, j) {
                            let k = choose|k: int|
                                0 <= k < idx as int && is_neighbor18(
                                    spec_delinearize(b, #[trigger] ones@[k] as int),
                                    spec_delinearize(b, j),
                                );
                            assert(0 <= k && k < (idx as int) + 1 && is_neighbor18(
                                spec_delinearize(b, ones@[k] as int),
                                spec_delinearize(b, j),
                            ));
                        } else {
                            assert(near_codes(b, pos, 27, j));
                            assert(is_neighbor18(
                                spec_delinearize(b, ones@[idx as int] as int),
                                spec_delinearize(b, j),
                            ));
                            assert(0 <= idx as int && (idx as int) < (idx as int) + 1 && is_neighbor18(
                                spec_delinearize(b, ones@[idx as int] as int),
                                spec_delinearize(b, j),
                            ));
                        }
                    }
                }
                assert forall|j: int|
                    bits0.contains(j) || (0 <= j < spec_volume(b) && near_prefix(
                        b,
                        ones@,
                        idx as int + 1,
                        j,
                    )) implies #[trigger] bits_of(self.dirty).contains(j) by {
                    if !bits0.contains(j) && 0 <= j < spec_volume(b) {
                        let k = choose|k: int|
                            0 <= k < idx as int + 1 && is_neighbor18(
                                spec_delinearize(b, #[trigger] ones@[k] as int),
                                spec_delinearize(b, j),
                            );
                        if k == idx as int {
                            assert(is_neighbor18(pos, spec_delinearize(b, j)));
                            assert(near_codes(b, pos, 27, j));
                        } else {
                            assert(0 <= k < idx as int && is_neighbor18(
                                spec_delinearize(b, ones@[k] as int),
                                spec_delinearize(b, j),
                            ));
                        }
                    }
                }
            }
        }
        proof {
            assert(bits_of(self.dirty) =~= bits0.union(dilate18(b, ms))) by {
                assert forall|j: int|
                    #[trigger] bits_of(self.dirty).contains(j) implies bits0.contains(j) || dilate18(
                    b,
                    ms,
                ).contains(j) by {
                    if !bits0.contains(j) {
                        let k = choose|k: int|
                            0 <= k < n as int && is_neighbor18(
                                spec_delinearize(b, #[trigger] ones@[k] as int),
                                spec_delinearize(b, j),
                            );
                        assert(ms.contains(ones@[k] as int));
                    }
                }
                assert forall|j: int|
                    bits0.contains(j) || dilate18(b, ms).contains(j) implies #[trigger] bits_of(
                    self.dirty,
                ).contains(j) by {
                    if !bits0.contains(j) {
                        let m0 = choose|m0: int|
                            ms.contains(m0) && 0 <= m0 < spec_volume(b) && is_neighbor18(
                                spec_delinearize(b, m0),
                                #[trigger] spec_delinearize(b, j),
                            );
                        let k = choose|k: int| 0 <= k < n as int && (#[trigger] ones@[k]) == m0;
                        assert(0 <= k < n as int && is_neighbor18(
                            spec_delinearize(b, ones@[k] as int),
                            spec_delinearize(b, j),
                        ));
                    }
                }
            }
        }
    }
}

} // verus!
