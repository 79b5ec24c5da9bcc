//! The cellular-automaton relaxation pass.
//!
//! One pass rebuilds the dirty work set from the grid's modified cells by
//! 18-connected dilation, clears the modified set, and then visits every
//! dirty cell in ascending index order. A visited cell holding granular
//! material makes at most one move: straight down one step if the cell
//! below is empty, otherwise to the first open slot two rows down and one
//! step off-axis, scanned in the fixed order `-x`, `+x`, `-z`, `+z`.

use crate::bitset::{bit_capacity, bits_of, collect_ones};
use crate::coords::{spec_delinearize, spec_in_bounds, spec_linearize, spec_volume, Pos3};
use crate::dirty::{dilate18, DirtyBuffer};
use crate::grid::VoxelSim;
use crate::voxel::{falls, Voxel};
use vstd::prelude::*;

verus! {

/// Index distance of one step straight down.
pub open spec fn y_stride(b: Pos3) -> int {
    b.x * b.z
}

/// The x-offset of the diagonal slot scanned `k`-th.
pub open spec fn diag_dx(k: int) -> int {
    if k == 0 {
        -1
    } else if k == 1 {
        1
    } else {
        0
    }
}

/// The z-offset of the diagonal slot scanned `k`-th.
pub open spec fn diag_dz(k: int) -> int {
    if k == 2 {
        -1
    } else if k == 3 {
        1
    } else {
        0
    }
}

/// The position of the `k`-th diagonal slot below `p`: two rows down, one
/// step off-axis.
pub open spec fn diag_pos(p: Pos3, k: int) -> Pos3 {
    Pos3 { x: (p.x + diag_dx(k)) as i32, y: (p.y - 2) as i32, z: (p.z + diag_dz(k)) as i32 }
}

/// Whether the `k`-th diagonal slot below `p` is horizontally inside the
/// grid and currently empty.
pub open spec fn diag_open(b: Pos3, cells: Seq<Voxel>, p: Pos3, k: int) -> bool {
    let t = diag_pos(p, k);
    &&& 0 <= t.x < b.x
    &&& 0 <= t.z < b.z
    &&& cells[spec_linearize(b, t)] == Voxel::Air
}

/// The first open diagonal slot below `p` at or after scan position `k`,
/// as a flat index.
pub open spec fn first_diag(b: Pos3, cells: Seq<Voxel>, p: Pos3, k: int) -> Option<int>
    decreases 4 - k,
{
    if k < 0 || k >= 4 {
        None
    } else if diag_open(b, cells, p, k) {
        Some(spec_linearize(b, diag_pos(p, k)))
    } else {
        first_diag(b, cells, p, k + 1)
    }
}

/// The flat index the material at dirty cell `i` moves to when the
/// automaton visits it with the cells in the given state, or `None` when it
/// stays put. `Air` and `Barrier` cells never move.
pub open spec fn move_target(b: Pos3, cells: Seq<Voxel>, i: int) -> Option<int> {
    if !falls(cells[i]) {
        None
    } else if i - y_stride(b) >= 0 && cells[i - y_stride(b)] == Voxel::Air {
        Some(i - y_stride(b))
    } else {
        let p = spec_delinearize(b, i);
        if p.y >= 2 {
            first_diag(b, cells, p, 0)
        } else {
            None
        }
    }
}

/// The cells after the automaton has visited cell `i` once.
pub open spec fn step_cells(b: Pos3, cells: Seq<Voxel>, i: int) -> Seq<Voxel> {
    match move_target(b, cells, i) {
        None => cells,
        Some(j) => cells.update(i, Voxel::Air).update(j, cells[i]),
    }
}

/// The cells after the automaton has visited the indices of `ds` in order.
pub open spec fn tick_cells(b: Pos3, cells: Seq<Voxel>, ds: Seq<int>) -> Seq<Voxel>
    decreases ds.len(),
{
    if ds.len() == 0 {
        cells
    } else {
        tick_cells(b, step_cells(b, cells, ds[0]), ds.drop_first())
    }
}

/// The cell indices marked modified while the automaton visits the indices
/// of `ds` in order: both ends of every move made.
pub open spec fn tick_moves(b: Pos3, cells: Seq<Voxel>, ds: Seq<int>) -> Set<int>
    decreases ds.len(),
{
    if ds.len() == 0 {
        Set::empty()
    } else {
        let here = match move_target(b, cells, ds[0]) {
            None => Set::<int>::empty(),
            Some(j) => Set::<int>::empty().insert(ds[0]).insert(j),
        };
        here.union(tick_moves(b, step_cells(b, cells, ds[0]), ds.drop_first()))
    }
}

/// The members of `s` below `n`, in ascending order: the iteration order of
/// a relaxation pass over its dirty set.
pub open spec fn sorted_indices(s: Set<int>, n: int) -> Seq<int>
    decreases n,
{
    if n <= 0 {
        Seq::empty()
    } else if s.contains(n - 1) {
        sorted_indices(s, n - 1).push(n - 1)
    } else {
        sorted_indices(s, n - 1)
    }
}

/// The cells one relaxation pass leaves behind: the modified set is dilated
/// into the dirty set, whose indices are visited in ascending order.
pub open spec fn pass_cells(b: Pos3, cells: Seq<Voxel>, modified: Set<int>) -> Seq<Voxel> {
    tick_cells(b, cells, sorted_indices(dilate18(b, modified), spec_volume(b)))
}

/// The cell indices one relaxation pass marks modified.
pub open spec fn pass_moves(b: Pos3, cells: Seq<Voxel>, modified: Set<int>) -> Set<int> {
    tick_moves(b, cells, sorted_indices(dilate18(b, modified), spec_volume(b)))
}

/// The cells and the modified set after `t` repeated relaxation passes.
pub open spec fn run_passes(b: Pos3, cells: Seq<Voxel>, modified: Set<int>, t: nat) -> (
    Seq<Voxel>,
    Set<int>,
)
    decreases t,
{
    if t == 0 {
        (cells, modified)
    } else {
        let prev = run_passes(b, cells, modified, (t - 1) as nat);
        (pass_cells(b, prev.0, prev.1), pass_moves(b, prev.0, prev.1))
    }
}

/// The sorted index sequence is strictly increasing and holds exactly the
/// members of `s` below `n`.
pub proof fn lemma_sorted_indices_props(s: Set<int>, n: int)
    requires
        0 <= n,
    ensures
        forall|t: int|
            0 <= t < sorted_indices(s, n).len() ==> s.contains(#[trigger] sorted_indices(s, n)[t])
                && 0 <= sorted_indices(s, n)[t] < n,
        forall|k: int| 0 <= k < n && s.contains(k) ==> sorted_indices(s, n).contains(k),
        forall|t1: int, t2: int|
            0 <= t1 < t2 < sorted_indices(s, n).len() ==> sorted_indices(s, n)[t1]
                < sorted_indices(s, n)[t2],
    decreases n,
{
    if n > 0 {
        lemma_sorted_indices_props(s, n - 1);
        let prev = sorted_indices(s, n - 1);
        let cur = sorted_indices(s, n);
        if s.contains(n - 1) {
            assert(cur.contains(n - 1)) by {
                assert(cur[cur.len() - 1] == n - 1);
            }
        }
        assert forall|k: int| 0 <= k < n && s.contains(k) implies cur.contains(k) by {
            if k < n - 1 {
                let t = choose|t: int| 0 <= t < prev.len() && prev[t] == k;
                assert(cur[t] == k);
            }
        }
    }
}

/// A strictly increasing sequence whose members are exactly the members of
/// `s` below `n` is the sorted index sequence of `s` below `n`.
pub proof fn lemma_sorted_indices_unique(r: Seq<int>, s: Set<int>, n: int)
    requires
        0 <= n,
        forall|t1: int, t2: int| 0 <= t1 < t2 < r.len() ==> r[t1] < r[t2],
        forall|t: int| 0 <= t < r.len() ==> s.contains(#[trigger] r[t]) && 0 <= r[t] < n,
        forall|k: int| 0 <= k < n && s.contains(k) ==> r.contains(k),
    ensures
        r == sorted_indices(s, n),
    decreases n,
{
    if n == 0 {
        assert(r.len() == 0) by {
            if r.len() > 0 {
                assert(s.contains(r[0]) && 0 <= r[0] && r[0] < n);
            }
        }
        assert(r =~= sorted_indices(s, 0));
    } else if s.contains(n - 1) {
        let t0 = choose|t: int| 0 <= t < r.len() && r[t] == n - 1;
        assert(t0 == r.len() - 1) by {
            if t0 < r.len() - 1 {
                assert(r[t0] < r[r.len() - 1]);
                assert(0 <= r[r.len() - 1] < n);
            }
        }
        let rp = r.drop_last();
        assert forall|k: int| 0 <= k < n - 1 && s.contains(k) implies rp.contains(k) by {
            let t = choose|t: int| 0 <= t < r.len() && r[t] == k;
            assert(t != r.len() - 1);
            assert(rp[t] == k);
        }
        assert forall|t: int| 0 <= t < rp.len() implies s.contains(#[trigger] rp[t]) && 0 <= rp[t]
            < n - 1 by {
            assert(rp[t] == r[t]);
            assert(r[t] < r[r.len() - 1]);
        }
        lemma_sorted_indices_unique(rp, s, n - 1);
        assert(r =~= sorted_indices(s, n - 1).push(n - 1)) by {
            assert(rp == sorted_indices(s, n - 1));
            assert(r == rp.push(r[r.len() - 1])) by {
                assert(r =~= rp.push(r[r.len() - 1]));
            }
        }
    } else {
        assert forall|t: int| 0 <= t < r.len() implies s.contains(#[trigger] r[t]) && 0 <= r[t] < n
            - 1 by {
            if r[t] == n - 1 {
                assert(s.contains(n - 1));
            }
        }
        lemma_sorted_indices_unique(r, s, n - 1);
    }
}

/// A pass over an empty modified set changes nothing and marks nothing:
/// once every granular cell is supported, further passes are no-ops.
pub proof fn lemma_quiescence(b: Pos3, cells: Seq<Voxel>)
    ensures
        pass_cells(b, cells, Set::empty()) == cells,
        pass_moves(b, cells, Set::empty()) == Set::<int>::empty(),
{
    if spec_volume(b) > 0 {
        lemma_quiescence_rec(b, cells, spec_volume(b));
    }
}

proof fn lemma_quiescence_rec(b: Pos3, cells: Seq<Voxel>, n: int)
    requires
        0 <= n,
    ensures
        sorted_indices(dilate18(b, Set::empty()), n) == Seq::<int>::empty(),
        tick_cells(b, cells, sorted_indices(dilate18(b, Set::empty()), n)) == cells,
        tick_moves(b, cells, sorted_indices(dilate18(b, Set::empty()), n)) == Set::<int>::empty(),
    decreases n,
{
    assert(forall|j: int| !(#[trigger] dilate18(b, Set::empty()).contains(j)));
    if n > 0 {
        lemma_quiescence_rec(b, cells, n - 1);
    }
}

/// The vertical-fall policy: a granular cell with empty space directly
/// below moves exactly one step down when visited.
pub proof fn lemma_vertical_fall(b: Pos3, cells: Seq<Voxel>, i: int)
    requires
        falls(cells[i]),
        i - y_stride(b) >= 0,
        cells[i - y_stride(b)] == Voxel::Air,
    ensures
        move_target(b, cells, i) == Some(i - y_stride(b)),
{
}

/// The diagonal-fall policy: a granular cell that cannot fall straight
/// down, with at least one open slot two rows beneath it, moves to the
/// first open slot in the fixed scan order.
pub proof fn lemma_diagonal_fall(b: Pos3, cells: Seq<Voxel>, i: int, k: int)
    requires
        falls(cells[i]),
        !(i - y_stride(b) >= 0 && cells[i - y_stride(b)] == Voxel::Air),
        spec_delinearize(b, i).y >= 2,
        0 <= k < 4,
        diag_open(b, cells, spec_delinearize(b, i), k),
        forall|kk: int| 0 <= kk < k ==> !diag_open(b, cells, spec_delinearize(b, i), kk),
    ensures
        move_target(b, cells, i) == Some(
            spec_linearize(b, diag_pos(spec_delinearize(b, i), k)),
        ),
{
    let p = spec_delinearize(b, i);
    lemma_first_diag_picks(b, cells, p, 0, k);
}

proof fn lemma_first_diag_picks(b: Pos3, cells: Seq<Voxel>, p: Pos3, k0: int, k: int)
    requires
        0 <= k0 <= k < 4,
        diag_open(b, cells, p, k),
        forall|kk: int| k0 <= kk < k ==> !diag_open(b, cells, p, kk),
    ensures
        first_diag(b, cells, p, k0) == Some(spec_linearize(b, diag_pos(p, k))),
    decreases k - k0,
{
    if k0 < k {
        lemma_first_diag_picks(b, cells, p, k0 + 1, k);
    }
}

impl VoxelSim {
    /// The first open diagonal slot below `pos` in scan order, as a flat
    /// index, or `None` when all four are closed or outside the grid.
    fn diag_target(&self, pos: Pos3) -> (r: Option<usize>)
        requires
            self.wf(),
            spec_in_bounds(self.bounds, pos),
            pos.y >= 2,
        ensures
            r is None <==> first_diag(self.bounds, self.voxels@, pos, 0) is None,
            r matches Some(t) ==> first_diag(self.bounds, self.voxels@, pos, 0) == Some(t as int)
                && t < spec_volume(self.bounds),
    {
        let ghost b = self.bounds;
        proof {
            assert(b.x <= b.x * b.y * b.z && b.z <= b.x * b.y * b.z) by (nonlinear_arith)
                requires
                    1 <= b.x && 1 <= b.y && 1 <= b.z,
            ;
        }
        let mut k: usize = 0;
        while k < 4
            invariant
                self.wf(),
                self.bounds == b,
                spec_in_bounds(b, pos),
                pos.y >= 2,
                b.x <= i32::MAX && b.z <= i32::MAX,
                k <= 4,
                first_diag(b, self.voxels@, pos, 0) == first_diag(b, self.voxels@, pos, k as int),
            decreases 4 - k,
        {
            let dx: i32 = if k == 0 {
                -1
            } else if k == 1 {
                1
            } else {
                0
            };
            let dz: i32 = if k == 2 {
                -1
            } else if k == 3 {
                1
            } else {
                0
            };
            let t = Pos3 { x: pos.x + dx, y: pos.y - 2, z: pos.z + dz };
            proof {
                assert(t == diag_pos(pos, k as int));
            }
            if t.x >= 0 && t.x < self.bounds.x && t.z >= 0 && t.z < self.bounds.z {
                let index = self.linearize(t);
                if self.voxels[index] == Voxel::Air {
                    proof {
                        assert(diag_open(b, self.voxels@, pos, k as int));
                    }
                    return Some(index);
                }
            }
            proof {
                assert(!diag_open(b, self.voxels@, pos, k as int));
            }
            k = k + 1;
        }
        None
    }

    /// One relaxation pass: rebuilds the dirty work set from the modified
    /// cells by 18-connected dilation, clears the modified set, then visits
    /// every dirty cell in ascending index order, letting unsupported
    /// granular material fall straight down or to the first open diagonal
    /// slot. Both ends of every move are marked modified, so settling
    /// continues in later passes until the volume quiesces.
    pub fn simulate(&mut self, dirty: &mut DirtyBuffer)
        requires
            old(self).wf(),
            old(dirty).wf(),
            old(dirty).bounds == old(self).bounds,
        ensures
            final(self).wf(),
            final(dirty).wf(),
            final(self).bounds == old(self).bounds,
            final(dirty).bounds == old(self).bounds,
            bits_of(final(dirty).dirty) == dilate18(old(self).bounds, bits_of(old(self).modified)),
            final(self).voxels@ == pass_cells(
                old(self).bounds,
                old(self).voxels@,
                bits_of(old(self).modified),
            ),
            bits_of(final(self).modified) == pass_moves(
                old(self).bounds,
                old(self).voxels@,
                bits_of(old(self).modified),
            ),
            final(self).needs_remesh == (old(self).needs_remesh || !pass_moves(
                old(self).bounds,
                old(self).voxels@,
                bits_of(old(self).modified),
            ).is_empty()),
    {
        let ghost b = self.bounds;
        let ghost cells0 = self.voxels@;
        let ghost mods0 = bits_of(self.modified);
        let ghost nr0 = self.needs_remesh;

        dirty.dirty.clear();
        dirty.dilate_modified(&self.modified);
        self.clear_modified();

        let ghost dset = bits_of(dirty.dirty);
        proof {
            assert(dset =~= dilate18(b, mods0));
        }

        let ones = collect_ones(&dirty.dirty);
        let ghost ds = Seq::new(ones@.len() as nat, |t: int| ones@[t] as int);
        proof {
            assert forall|k: int| 0 <= k < spec_volume(b) && dset.contains(k) implies ds.contains(
                k,
            ) by {
                let t = choose|t: int| 0 <= t < ones@.len() && (#[trigger] ones@[t]) == k;
                assert(ds[t] == k);
            }
            lemma_sorted_indices_unique(ds, dset, spec_volume(b));
        }

        proof {
            assert(1 <= b.x * b.z && b.x * b.z <= b.x * b.y * b.z) by (nonlinear_arith)
                requires
                    1 <= b.x && 1 <= b.y && 1 <= b.z,
            ;
        }
        let ystride = (self.bounds.x as usize) * (self.bounds.z as usize);
        let n = ones.len();
        proof {
            assert(ds.skip(0) =~= ds);
            assert(Set::<int>::empty().union(tick_moves(b, cells0, ds)) =~= tick_moves(
                b,
                cells0,
                ds,
            ));
        }
        let mut k: usize = 0;
        while k < n
            invariant
                self.wf(),
                self.bounds == b,
                dirty.wf(),
                dirty.bounds == b,
                bits_of(dirty.dirty) == dset,
                cells0.len() == spec_volume(b),
                n == ones@.len(),
                ds.len() == n,
                forall|t: int| 0 <= t < n ==> #[trigger] ds[t] == ones@[t] as int,
                forall|t: int| 0 <= t < n ==> 0 <= #[trigger] ds[t] < spec_volume(b),
                k <= n,
                1 <= ystride,
                ystride == y_stride(b),
                tick_cells(b, cells0, ds) == tick_cells(b, self.voxels@, ds.skip(k as int)),
                tick_moves(b, cells0, ds) == bits_of(self.modified).union(
                    tick_moves(b, self.voxels@, ds.skip(k as int)),
                ),
                self.needs_remesh == (nr0 || !bits_of(self.modified).is_empty()),
            decreases n - k,
        {
            let i = ones[k];
            proof {
                assert(ds[k as int] == i as int);
                assert(0 <= i as int && (i as int) < spec_volume(b));
                assert(ds.skip(k as int)[0] == ds[k as int]);
                assert(ds.skip(k as int).drop_first() =~= ds.skip(k as int + 1));
            }
            let ghost cur = self.voxels@;
            let v = self.voxels[i];
            let mv: Option<usize> = if v == Voxel::Dirt || v == Voxel::Sand {
                if i >= ystride && self.voxels[i - ystride] == Voxel::Air {
                    Some(i - ystride)
                } else {
                    let pos = self.delinearize(i);
                    if pos.y >= 2 {
                        self.diag_target(pos)
                    } else {
                        None
                    }
                }
            } else {
                None
            };
            proof {
                assert(mv is None ==> move_target(b, cur, i as int) is None);
                assert(mv matches Some(j) ==> move_target(b, cur, i as int) == Some(j as int) && (
                j as int) < spec_volume(b));
            }
            match mv {
                None => {
                    proof {
                        assert(step_cells(b, cur, ds[k as int]) == cur);
                        assert(tick_moves(b, cur, ds.skip(k as int)) =~= Set::<int>::empty().union(
                            tick_moves(b, cur, ds.skip(k as int + 1)),
                        ));
                        assert(tick_moves(b, cells0, ds) =~= bits_of(self.modified).union(
                            tick_moves(b, self.voxels@, ds.skip(k as int + 1)),
                        ));
                    }
                },
                Some(j) => {
                    let ghost mpre = bits_of(self.modified);
                    self.voxels[i] = Voxel::Air;
                    self.voxels[j] = v;
                    self.modified.insert(i);
                    self.modified.insert(j);
                    self.needs_remesh = true;
                    proof {
                        assert(self.voxels@ == step_cells(b, cur, ds[k as int]));
                        let here = Set::<int>::empty().insert(i as int).insert(j as int);
                        assert(tick_moves(b, cur, ds.skip(k as int)) == here.union(
                            tick_moves(b, self.voxels@, ds.skip(k as int + 1)),
                        ));
                        assert(mpre.union(
                            here.union(tick_moves(b, self.voxels@, ds.skip(k as int + 1))),
                        ) =~= bits_of(self.modified).union(
                            tick_moves(b, self.voxels@, ds.skip(k as int + 1)),
                        ));
                    }
                },
            }
            k = k + 1;
        }
        proof {
            assert(ds.skip(n as int) =~= Seq::<int>::empty());
            assert(tick_cells(b, self.voxels@, Seq::<int>::empty()) == self.voxels@);
            assert(tick_moves(b, cells0, ds) =~= bits_of(self.modified));
        }
    }
}

} // verus!
