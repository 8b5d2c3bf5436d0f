//! What holds of every output of the engine.
use vstd::prelude::*;
use crate::assignment::{is_matching, is_min_matching, total_weight};
use crate::sequencer::{
    lemma_unmatched_len, lemma_unmatched_members, sequence_plan, unmatched, zip_plan, Slot,
};
use crate::two::{engine_assignment, engine_costs, fuzzy_zip_plan};

verus! {

/// The left slot of a record when `left`, else its right slot.
pub open spec fn pick(s: Slot, left: bool) -> Option<usize> {
    if left {
        s.0
    } else {
        s.1
    }
}

/// Index `x` of the left side (when `left`) or of the right side appears in
/// exactly one record of `plan`.
pub open spec fn appears_once(plan: Seq<Slot>, left: bool, x: usize) -> bool {
    exists|k: int|
        0 <= k < plan.len() && #[trigger] pick(plan[k], left) == Some(x) && forall|m: int|
            0 <= m < plan.len() && #[trigger] pick(plan[m], left) == Some(x) ==> m == k
}

/// Each row index appears once on the row side of the records, each column
/// index once on the column side, and no other index appears.
proof fn lemma_plan_coverage(rows: nat, columns: nat, a: Seq<usize>, swapped: bool, row_side: bool)
    requires
        row_side == !swapped,
        rows <= columns <= usize::MAX,
        is_matching(a, rows, columns),
    ensures
        forall|x: usize| x < rows ==> #[trigger] appears_once(sequence_plan(rows, columns, a, swapped), row_side, x),
        forall|x: usize| x < columns ==> #[trigger] appears_once(sequence_plan(rows, columns, a, swapped), swapped, x),
        forall|k: int| 0 <= k < columns ==> {
            &&& (#[trigger] pick(sequence_plan(rows, columns, a, swapped)[k], row_side)) matches Some(x) ==> x < rows
            &&& pick(sequence_plan(rows, columns, a, swapped)[k], swapped) matches Some(x) ==> x < columns
        },
{
    let plan = sequence_plan(rows, columns, a, swapped);
    let u = unmatched(a, columns);
    lemma_unmatched_len(a, columns);
    lemma_unmatched_members(a, columns);
    assert forall|k: int| 0 <= k < columns implies {
        &&& (#[trigger] pick(plan[k], row_side)) matches Some(x) ==> x < rows
        &&& pick(plan[k], swapped) matches Some(x) ==> x < columns
    } by {
        if k >= rows {
            assert(u[k - rows] < columns);
        }
    }
    assert forall|x: usize| x < rows implies #[trigger] appears_once(plan, row_side, x) by {
        let k = rows - 1 - x;
        assert(pick(plan[k], row_side) == Some(x));
        assert forall|m: int| 0 <= m < plan.len() && #[trigger] pick(plan[m], row_side) == Some(x) implies m == k by {
        }
    }
    assert forall|x: usize| x < columns implies #[trigger] appears_once(plan, swapped, x) by {
        if a.contains(x) {
            let row = choose|i: int| 0 <= i < a.len() && a[i] == x;
            let k = rows - 1 - row;
            assert(pick(plan[k], swapped) == Some(x));
            assert forall|m: int| 0 <= m < plan.len() && #[trigger] pick(plan[m], swapped) == Some(x) implies m == k by {
                if m >= rows {
                    assert(!a.contains(u[m - rows]));
                } else {
                    assert(a[rows - 1 - m] == x);
                }
            }
        } else {
            assert(u.contains(x));
            let p = choose|p: int| 0 <= p < u.len() && u[p] == x;
            let k = rows + p;
            assert(pick(plan[k], swapped) == Some(x));
            assert forall|m: int| 0 <= m < plan.len() && #[trigger] pick(plan[m], swapped) == Some(x) implies m == k by {
                if m < rows {
                    assert(a[rows - 1 - m] == x);
                } else if m - rows < p {
                    assert(u[m - rows] < u[p]);
                } else if m - rows > p {
                    assert(u[p] < u[m - rows]);
                }
            }
        }
    }
}

/// For non-empty sides of `l` and `r` elements, the engine emits exactly as
/// many records as the larger side has elements.
pub proof fn law_record_count(l: nat, r: nat, a: Seq<usize>)
    requires
        l > 0,
        r > 0,
        is_matching(a, if l <= r { l } else { r }, if l <= r { r } else { l }),
    ensures
        zip_plan(l, r, a).len() == if l <= r { r } else { l },
{
}

/// Every left index and every right index appears in exactly one record,
/// and the records hold no index outside the two sides.
pub proof fn law_each_index_once(l: nat, r: nat, a: Seq<usize>)
    requires
        l > 0,
        r > 0,
        l <= usize::MAX,
        r <= usize::MAX,
        is_matching(a, if l <= r { l } else { r }, if l <= r { r } else { l }),
    ensures
        forall|x: usize| x < l ==> #[trigger] appears_once(zip_plan(l, r, a), true, x),
        forall|x: usize| x < r ==> #[trigger] appears_once(zip_plan(l, r, a), false, x),
        forall|k: int| 0 <= k < zip_plan(l, r, a).len() ==> {
            &&& (#[trigger] zip_plan(l, r, a)[k]).0 matches Some(x) ==> x < l
            &&& zip_plan(l, r, a)[k].1 matches Some(x) ==> x < r
        },
{
    if l <= r {
        lemma_plan_coverage(l, r, a, false, true);
    } else {
        lemma_plan_coverage(r, l, a, true, false);
    }
    let plan = zip_plan(l, r, a);
    assert forall|k: int| 0 <= k < plan.len() implies {
        &&& (#[trigger] plan[k]).0 matches Some(x) ==> x < l
        &&& plan[k].1 matches Some(x) ==> x < r
    } by {
        assert(pick(plan[k], true) == plan[k].0);
        assert(pick(plan[k], false) == plan[k].1);
    }
}

/// When both sides have as many elements, every record holds an element of
/// each side.
pub proof fn law_equal_sizes_complete(n: nat, a: Seq<usize>)
    requires
        n > 0,
        is_matching(a, n, n),
    ensures
        forall|k: int| 0 <= k < zip_plan(n, n, a).len() ==> (#[trigger] zip_plan(n, n, a)[k]).0 is Some
            && zip_plan(n, n, a)[k].1 is Some,
{
}

/// When the sides differ in size, passing them the other way round gives the
/// same records with their two slots exchanged.
pub proof fn law_swap_mirrors(lefts: Seq<Seq<u8>>, rights: Seq<Seq<u8>>)
    requires
        lefts.len() != rights.len(),
    ensures
        fuzzy_zip_plan(rights, lefts).len() == fuzzy_zip_plan(lefts, rights).len(),
        forall|k: int| 0 <= k < fuzzy_zip_plan(lefts, rights).len() ==>
            #[trigger] fuzzy_zip_plan(rights, lefts)[k] == (fuzzy_zip_plan(lefts, rights)[k].1, fuzzy_zip_plan(lefts, rights)[k].0),
{
    assert(engine_assignment(rights, lefts) == engine_assignment(lefts, rights));
}


/// The weight of the cell that a record with both slots filled stands for:
/// its row is its left slot, or its right slot when `swapped`.
pub open spec fn record_weight(cells: Seq<Seq<i64>>, s: Slot, swapped: bool) -> int {
    match (s.0, s.1) {
        (Some(x), Some(y)) => if swapped {
            cells[y as int][x as int] as int
        } else {
            cells[x as int][y as int] as int
        },
        _ => 0,
    }
}

/// The total weight of the records among the first `n` of `plan` that pair
/// two elements.
pub open spec fn matched_weight(cells: Seq<Seq<i64>>, plan: Seq<Slot>, swapped: bool, n: nat) -> int
    decreases n,
{
    if n == 0 {
        0
    } else {
        matched_weight(cells, plan, swapped, (n - 1) as nat) + record_weight(cells, plan[n - 1], swapped)
    }
}

proof fn lemma_matched_weight(cells: Seq<Seq<i64>>, rows: nat, columns: nat, a: Seq<usize>, swapped: bool, n: nat)
    requires
        rows <= columns <= usize::MAX,
        n <= columns,
        is_matching(a, rows, columns),
    ensures
        matched_weight(cells, sequence_plan(rows, columns, a, swapped), swapped, n) == if n <= rows {
            total_weight(cells, a, rows) - total_weight(cells, a, (rows - n) as nat)
        } else {
            total_weight(cells, a, rows)
        },
    decreases n,
{
    if n > 0 {
        lemma_matched_weight(cells, rows, columns, a, swapped, (n - 1) as nat);
        let plan = sequence_plan(rows, columns, a, swapped);
        if n <= rows {
            let row = rows - n;
            assert(plan[n - 1] == crate::sequencer::oriented(Some(row as usize), Some(a[row]), swapped));
            assert(record_weight(cells, plan[n - 1], swapped) == cells[row][a[row] as int]);
            assert(total_weight(cells, a, (row + 1) as nat) == total_weight(cells, a, row as nat) + cells[row][a[row] as int]);
        } else {
            assert(record_weight(cells, plan[n - 1], swapped) == 0);
        }
    }
}

/// The records that pair two elements weigh together no more than any other
/// matching of the smaller side into the larger one, when the assignment
/// behind them is the least one (as `fuzzy_zip_two` ensures of its own).
pub proof fn law_matched_weight_least(l: nat, r: nat, cells: Seq<Seq<i64>>, a: Seq<usize>, other: Seq<usize>)
    requires
        l > 0,
        r > 0,
        l <= usize::MAX,
        r <= usize::MAX,
        cells.len() == if l <= r { l } else { r },
        is_min_matching(cells, if l <= r { r } else { l }, a),
        is_matching(other, cells.len(), if l <= r { r } else { l }),
    ensures
        matched_weight(cells, zip_plan(l, r, a), l > r, zip_plan(l, r, a).len()) <= total_weight(cells, other, cells.len()),
{
    if l <= r {
        lemma_matched_weight(cells, l, r, a, false, r);
    } else {
        lemma_matched_weight(cells, r, l, a, true, l);
    }
}

} // verus!
