//! The cell activation snapshot: the union of every pointer's cells and of
//! the cells that keys force active.

use vstd::prelude::*;
use crate::geometry::CELLS;

verus! {

/// Cell `c` is active: a pointer's cells or the override set hold it.
pub open spec fn cell_active(pointer_cells: Seq<Vec<usize>>, overrides: Seq<usize>, c: int) -> bool {
    overrides.contains(c as usize) || exists|i: int|
        0 <= i < pointer_cells.len() && #[trigger] pointer_cells[i]@.contains(c as usize)
}

/// Marks in `r` every cell of `cells` below 240.
fn mark_all(r: &mut Vec<bool>, cells: &[usize])
    requires
        old(r)@.len() == CELLS,
    ensures
        final(r)@.len() == CELLS,
        forall|c: int|
            0 <= c < CELLS ==> #[trigger] final(r)@[c] == (old(r)@[c] || cells@.contains(c as usize)),
{
    let mut j: usize = 0;
    while j < cells.len()
        invariant
            j <= cells@.len(),
            r@.len() == CELLS,
            forall|c: int|
                0 <= c < CELLS ==> #[trigger] r@[c] == (old(r)@[c] || cells@.take(j as int).contains(
                    c as usize,
                )),
        decreases cells@.len() - j,
    {
        let cell = cells[j];
        if cell < CELLS {
            r.set(cell, true);
        }
        assert forall|c: int| 0 <= c < CELLS implies #[trigger] r@[c] == (old(r)@[c]
            || cells@.take(j + 1).contains(c as usize)) by {
            let t = cells@.take(j as int);
            let t1 = cells@.take(j + 1);
            assert(t1 =~= t.push(cell));
            if t.contains(c as usize) {
                let k = choose|k: int| 0 <= k < t.len() && t[k] == c as usize;
                assert(t1[k] == c as usize);
            }
            if c == cell as int {
                assert(t1[j as int] == c as usize);
            }
            if t1.contains(c as usize) && c != cell as int {
                let k = choose|k: int| 0 <= k < t1.len() && t1[k] == c as usize;
                assert(t[k] == c as usize);
            }
        }
        j += 1;
    }
    assert(cells@.take(j as int) =~= cells@);
}

/// The activation snapshot, one entry per cell: a cell is active exactly
/// when some pointer's cells or the override set hold it. Cell numbers from
/// 240 on are ignored.
pub fn active_snapshot(pointer_cells: &Vec<Vec<usize>>, overrides: &[usize]) -> (r: Vec<bool>)
    ensures
        r@.len() == CELLS,
        forall|c: int|
            0 <= c < CELLS ==> #[trigger] r@[c] == cell_active(pointer_cells@, overrides@, c),
{
    let mut r: Vec<bool> = Vec::new();
    let mut c: usize = 0;
    while c < CELLS
        invariant
            c <= CELLS,
            r@.len() == c,
            forall|k: int| 0 <= k < c ==> !#[trigger] r@[k],
        decreases CELLS - c,
    {
        r.push(false);
        c += 1;
    }
    mark_all(&mut r, overrides);
    let mut i: usize = 0;
    while i < pointer_cells.len()
        invariant
            i <= pointer_cells@.len(),
            r@.len() == CELLS,
            forall|c: int|
                0 <= c < CELLS ==> #[trigger] r@[c] == cell_active(
                    pointer_cells@.take(i as int),
                    overrides@,
                    c,
                ),
        decreases pointer_cells@.len() - i,
    {
        mark_all(&mut r, pointer_cells[i].as_slice());
        assert forall|c: int| 0 <= c < CELLS implies #[trigger] r@[c] == cell_active(
            pointer_cells@.take(i + 1),
            overrides@,
            c,
        ) by {
            let t = pointer_cells@.take(i as int);
            let t1 = pointer_cells@.take(i + 1);
            if exists|p: int| 0 <= p < t.len() && #[trigger] t[p]@.contains(c as usize) {
                let p = choose|p: int| 0 <= p < t.len() && #[trigger] t[p]@.contains(c as usize);
                assert(t1[p] == t[p]);
            }
            if pointer_cells@[i as int]@.contains(c as usize) {
                assert(t1[i as int] == pointer_cells@[i as int]);
            }
            if exists|p: int| 0 <= p < t1.len() && #[trigger] t1[p]@.contains(c as usize) {
                let p = choose|p: int| 0 <= p < t1.len() && #[trigger] t1[p]@.contains(c as usize);
                if p < i {
                    assert(t[p] == t1[p]);
                }
            }
        }
        i += 1;
    }
    assert(pointer_cells@.take(i as int) =~= pointer_cells@);
    r
}

} // verus!
