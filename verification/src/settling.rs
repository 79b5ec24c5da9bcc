//! Settling of a suspended column, proved against the relaxation pass.
//!
//! In a one-cell-wide shaft (extents `1 x h x 1`) holding a single column
//! of granular cells suspended above the floor, each relaxation pass moves
//! the column down exactly one cell, and a column resting on the floor is
//! left untouched, so the volume quiesces. The shaft is the configuration
//! in which the column falls as a column: in a wider grid a tall resting
//! column keeps spreading through the diagonal-fall policy instead of
//! standing still.

use crate::automaton::{
    diag_open, diag_pos, first_diag, lemma_sorted_indices_props, move_target, pass_cells,
    pass_moves, run_passes, sorted_indices, step_cells, tick_cells, tick_moves, y_stride,
};
use crate::coords::{spec_delinearize, spec_volume, wf_bounds, Pos3};
use crate::dirty::{dilate18, is_neighbor18};
use crate::voxel::Voxel;
use vstd::prelude::*;

verus! {

/// A shaft: a grid exactly one cell wide along x and z, whose cell index
/// and y-coordinate coincide.
pub open spec fn is_shaft(b: Pos3) -> bool {
    b.x == 1 && b.z == 1
}

/// The cells of a shaft holding granular material exactly at heights
/// `lo..lo + k`.
pub open spec fn shaft_column(b: Pos3, lo: int, k: int) -> Seq<Voxel> {
    Seq::new(
        spec_volume(b) as nat,
        |i: int|
            if lo <= i < lo + k {
                Voxel::Dirt
            } else {
                Voxel::Air
            },
    )
}

/// The set of cell indices in `lo..hi`.
pub open spec fn index_span(lo: int, hi: int) -> Set<int> {
    Set::new(|j: int| lo <= j < hi)
}

/// In a shaft, every cell index delinearizes to its own height.
proof fn lemma_shaft_delinearize(b: Pos3, i: int)
    requires
        is_shaft(b),
        wf_bounds(b),
        0 <= i < spec_volume(b),
    ensures
        spec_delinearize(b, i) == (Pos3 { x: 0, y: i as i32, z: 0 }),
{
    crate::coords::lemma_delinearize_round_trip(b, i);
    let p = spec_delinearize(b, i);
    assert(crate::coords::spec_linearize(b, p) == i);
}

/// In a shaft, no diagonal slot is ever open: every candidate leaves the
/// one-cell-wide cross-section.
proof fn lemma_shaft_no_diagonal(b: Pos3, cells: Seq<Voxel>, p: Pos3)
    requires
        is_shaft(b),
        p.x == 0,
        p.z == 0,
    ensures
        first_diag(b, cells, p, 0) is None,
{
    assert(diag_pos(p, 0).x == -1 && !diag_open(b, cells, p, 0));
    assert(diag_pos(p, 1).x == 1 && !diag_open(b, cells, p, 1));
    assert(diag_pos(p, 2).z == -1 && !diag_open(b, cells, p, 2));
    assert(diag_pos(p, 3).z == 1 && !diag_open(b, cells, p, 3));
    assert(first_diag(b, cells, p, 4) is None);
    assert(first_diag(b, cells, p, 3) is None);
    assert(first_diag(b, cells, p, 2) is None);
    assert(first_diag(b, cells, p, 1) is None);
}

/// The column after the pass has moved its `m` lowest cells down one step:
/// material at `lo - 1 .. lo - 1 + m` and still at `lo + m .. lo + k`.
spec fn shifted_column(b: Pos3, lo: int, k: int, m: int) -> Seq<Voxel> {
    Seq::new(
        spec_volume(b) as nat,
        |i: int|
            if (lo - 1 <= i < lo - 1 + m) || (lo + m <= i < lo + k) {
                Voxel::Dirt
            } else {
                Voxel::Air
            },
    )
}

/// One pass over the rest of the dirty list moves the rest of the column
/// down one step, visiting cells in ascending index order.
proof fn lemma_shaft_column_tick_from(b: Pos3, lo: int, k: int, m: int, ds: Seq<int>)
    requires
        is_shaft(b),
        wf_bounds(b),
        1 <= lo,
        1 <= k,
        0 <= m <= k,
        lo + k <= b.y,
        forall|t1: int, t2: int| 0 <= t1 < t2 < ds.len() ==> ds[t1] < ds[t2],
        forall|t: int| 0 <= t < ds.len() ==> 0 <= #[trigger] ds[t] < spec_volume(b),
        m < k ==> forall|y: int| lo + m <= y < lo + k ==> ds.contains(y),
        m >= 1 ==> forall|t: int| 0 <= t < ds.len() ==> #[trigger] ds[t] > lo + m - 1,
    ensures
        tick_cells(b, shifted_column(b, lo, k, m), ds) == shifted_column(b, lo, k, k),
        tick_moves(b, shifted_column(b, lo, k, m), ds) == (if m == k {
            Set::<int>::empty()
        } else {
            index_span(lo + m - 1, lo + k)
        }),
    decreases ds.len(),
{
    let cells = shifted_column(b, lo, k, m);
    assert(spec_volume(b) == b.y);
    assert(y_stride(b) == 1);
    if ds.len() == 0 {
        if m < k {
            assert(ds.contains(lo + m));
            let t = choose|t: int| 0 <= t < ds.len() && ds[t] == lo + m;
            assert(false);
        }
        assert(tick_cells(b, cells, ds) == cells);
        assert(cells =~= shifted_column(b, lo, k, k));
        assert(tick_moves(b, cells, ds) == Set::<int>::empty());
    } else {
        let e = ds[0];
        let rest = ds.drop_first();
        assert(forall|t: int| 0 <= t < rest.len() ==> #[trigger] rest[t] == ds[t + 1]);
        if m < k {
            assert(ds.contains(lo + m));
            let t = choose|t: int| 0 <= t < ds.len() && ds[t] == lo + m;
            assert(e <= lo + m);
        }
        if m < k && e == lo + m {
            // The lowest not-yet-moved column cell: it falls one step.
            assert(cells[e] == Voxel::Dirt);
            assert(cells[e - 1] == Voxel::Air);
            assert(move_target(b, cells, e) == Some(e - 1));
            let stepped = step_cells(b, cells, e);
            assert(stepped =~= shifted_column(b, lo, k, m + 1));
            assert forall|y: int| lo + m + 1 <= y < lo + k implies rest.contains(y) by {
                assert(ds.contains(y));
                let t = choose|t: int| 0 <= t < ds.len() && ds[t] == y;
                assert(t >= 1) by {
                    if t == 0 {
                        assert(ds[0] == y && e == lo + m);
                    }
                }
                assert(rest[t - 1] == y);
            }
            assert forall|t: int| 0 <= t < rest.len() implies #[trigger] rest[t] > lo + m by {
                assert(rest[t] == ds[t + 1]);
            }
            lemma_shaft_column_tick_from(b, lo, k, m + 1, rest);
            assert(tick_cells(b, cells, ds) == shifted_column(b, lo, k, k));
            let here = Set::<int>::empty().insert(e).insert(e - 1);
            assert(tick_moves(b, cells, ds) == here.union(
                tick_moves(b, stepped, rest),
            ));
            if m + 1 == k {
                assert(here.union(Set::<int>::empty()) =~= index_span(lo + m - 1, lo + k)) by {
                    assert(k == m + 1);
                }
            } else {
                assert(here.union(index_span(lo + m, lo + k)) =~= index_span(lo + m - 1, lo + k));
            }
        } else {
            // Any other dirty cell is empty here: visiting it is a no-op.
            assert(cells[e] == Voxel::Air) by {
                if m >= 1 {
                    assert(e > lo + m - 1);
                }
            }
            assert(move_target(b, cells, e) is None);
            assert(step_cells(b, cells, e) == cells);
            assert forall|y: int| m < k && lo + m <= y < lo + k implies rest.contains(y) by {
                assert(ds.contains(y));
                let t = choose|t: int| 0 <= t < ds.len() && ds[t] == y;
                assert(t >= 1) by {
                    if t == 0 {
                        assert(e == y);
                    }
                }
                assert(rest[t - 1] == y);
            }
            lemma_shaft_column_tick_from(b, lo, k, m, rest);
            assert(tick_cells(b, cells, ds) == shifted_column(b, lo, k, k));
            assert(tick_moves(b, cells, ds) == Set::<int>::empty().union(
                tick_moves(b, cells, rest),
            ));
            if m == k {
                assert(Set::<int>::empty().union(Set::<int>::empty()) =~= Set::<int>::empty());
            } else {
                assert(Set::<int>::empty().union(index_span(lo + m - 1, lo + k)) =~= index_span(
                    lo + m - 1,
                    lo + k,
                ));
            }
        }
    }
}

/// Settling, falling phase: in a shaft holding a single column of `k`
/// granular cells suspended above the floor, one relaxation pass over any
/// dirty set that covers the column moves the whole column down exactly one
/// cell, and marks exactly the union of the old and new column cells
/// modified.
pub proof fn lemma_suspended_column_falls(b: Pos3, lo: int, k: int, modified: Set<int>)
    requires
        is_shaft(b),
        wf_bounds(b),
        1 <= lo,
        1 <= k,
        lo + k <= b.y,
        forall|y: int| lo <= y < lo + k ==> dilate18(b, modified).contains(y),
    ensures
        pass_cells(b, shaft_column(b, lo, k), modified) == shaft_column(b, lo - 1, k),
        pass_moves(b, shaft_column(b, lo, k), modified) == index_span(lo - 1, lo + k),
{
    let s = dilate18(b, modified);
    let n = spec_volume(b);
    let ds = sorted_indices(s, n);
    lemma_sorted_indices_props(s, n);
    assert(n == b.y);
    assert forall|y: int| lo <= y < lo + k implies ds.contains(y) by {
        assert(dilate18(b, modified).contains(y));
        assert(0 <= y < n && s.contains(y));
    }
    assert(shaft_column(b, lo, k) =~= shifted_column(b, lo, k, 0));
    lemma_shaft_column_tick_from(b, lo, k, 0, ds);
    assert(shifted_column(b, lo, k, k) =~= shaft_column(b, lo - 1, k));
}

/// Settling, resting phase: a column standing on the floor of a shaft makes
/// no move in a relaxation pass over any dirty set, and marks nothing
/// modified, so the volume quiesces.
pub proof fn lemma_resting_column_stays(b: Pos3, k: int, modified: Set<int>)
    requires
        is_shaft(b),
        wf_bounds(b),
        1 <= k <= b.y,
    ensures
        pass_cells(b, shaft_column(b, 0, k), modified) == shaft_column(b, 0, k),
        pass_moves(b, shaft_column(b, 0, k), modified) == Set::<int>::empty(),
{
    let s = dilate18(b, modified);
    let n = spec_volume(b);
    let ds = sorted_indices(s, n);
    lemma_sorted_indices_props(s, n);
    lemma_shaft_resting_tick(b, k, ds);
}

proof fn lemma_shaft_resting_tick(b: Pos3, k: int, ds: Seq<int>)
    requires
        is_shaft(b),
        wf_bounds(b),
        1 <= k <= b.y,
        forall|t: int| 0 <= t < ds.len() ==> 0 <= #[trigger] ds[t] < spec_volume(b),
    ensures
        tick_cells(b, shaft_column(b, 0, k), ds) == shaft_column(b, 0, k),
        tick_moves(b, shaft_column(b, 0, k), ds) == Set::<int>::empty(),
    decreases ds.len(),
{
    let cells = shaft_column(b, 0, k);
    assert(spec_volume(b) == b.y);
    assert(y_stride(b) == 1);
    if ds.len() > 0 {
        let e = ds[0];
        assert(move_target(b, cells, e) is None) by {
            if cells[e] == Voxel::Dirt {
                // Supported from below, and no diagonal slot in a shaft.
                assert(!(e - 1 >= 0 && cells[e - 1] == Voxel::Air));
                lemma_shaft_delinearize(b, e);
                lemma_shaft_no_diagonal(b, cells, spec_delinearize(b, e));
            }
        }
        assert(step_cells(b, cells, e) == cells);
        let rest = ds.drop_first();
        assert(forall|t: int| 0 <= t < rest.len() ==> #[trigger] rest[t] == ds[t + 1]);
        lemma_shaft_resting_tick(b, k, rest);
        assert(tick_moves(b, cells, ds) == Set::<int>::empty().union(
            tick_moves(b, cells, rest),
        ));
        assert(Set::<int>::empty().union(Set::<int>::empty()) =~= Set::<int>::empty());
    }
}

/// Settling termination: a column of `k` granular cells with its bottom at
/// height `lo` in a shaft, its cells covered by the first pass's dirty
/// set, moves down exactly one cell per pass until it rests on the floor
/// after `lo` passes; the pass after that marks nothing modified, and every
/// later pass leaves both the cells and the empty modified set unchanged.
pub proof fn lemma_column_settles(b: Pos3, lo: int, k: int, modified: Set<int>, t: nat)
    requires
        is_shaft(b),
        wf_bounds(b),
        0 <= lo,
        1 <= k,
        lo + k <= b.y,
        forall|y: int| lo <= y < lo + k ==> dilate18(b, modified).contains(y),
    ensures
        t <= lo ==> run_passes(b, shaft_column(b, lo, k), modified, t).0 == shaft_column(
            b,
            lo - t,
            k,
        ),
        1 <= t <= lo ==> run_passes(b, shaft_column(b, lo, k), modified, t).1 == index_span(
            lo - t,
            lo - t + k + 1,
        ),
        t > lo ==> run_passes(b, shaft_column(b, lo, k), modified, t).0 == shaft_column(b, 0, k),
        t > lo ==> run_passes(b, shaft_column(b, lo, k), modified, t).1 == Set::<int>::empty(),
    decreases t,
{
    if t > 0 {
        lemma_column_settles(b, lo, k, modified, (t - 1) as nat);
        let prev = run_passes(b, shaft_column(b, lo, k), modified, (t - 1) as nat);
        if t <= lo {
            // The column still hangs at height lo - t + 1: it falls once
            // more. The previous pass's marks (or the initial dirty set)
            // cover it.
            let a = lo - t + 1;
            if t == 1 {
                assert(prev.1 == modified);
            } else {
                assert(prev.1 == index_span(a, a + k + 1));
                lemma_column_marks_cover(b, a + 1, k);
                assert(index_span(a + 1 - 1, a + 1 + k) =~= index_span(a, a + k + 1));
            }
            lemma_suspended_column_falls(b, a, k, prev.1);
        } else if t == lo + 1 {
            // The column rests; this pass makes no move.
            assert(prev.0 == shaft_column(b, 0, k));
            lemma_resting_column_stays(b, k, prev.1);
        } else {
            // Quiescent: nothing is modified, so nothing changes.
            assert(prev.0 == shaft_column(b, 0, k) && prev.1 == Set::<int>::empty());
            lemma_resting_column_stays(b, k, Set::empty());
        }
    }
}

/// The modified marks of one falling pass cover the moved column in the
/// next pass's dilated dirty set, so the column keeps falling pass after
/// pass until it rests.
pub proof fn lemma_column_marks_cover(b: Pos3, lo: int, k: int)
    requires
        is_shaft(b),
        wf_bounds(b),
        1 <= lo,
        1 <= k,
        lo + k <= b.y,
    ensures
        forall|y: int|
            lo - 1 <= y < lo - 1 + k ==> #[trigger] dilate18(
                b,
                index_span(lo - 1, lo + k),
            ).contains(y),
{
    assert forall|y: int| lo - 1 <= y < lo - 1 + k implies #[trigger] dilate18(
        b,
        index_span(lo - 1, lo + k),
    ).contains(y) by {
        lemma_shaft_delinearize(b, y);
        lemma_shaft_delinearize(b, y + 1);
        assert(index_span(lo - 1, lo + k).contains(y + 1));
        assert(is_neighbor18(spec_delinearize(b, y + 1), spec_delinearize(b, y)));
    }
}

} // verus!
