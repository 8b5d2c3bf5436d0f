//! The matching engine for two collections.
use vstd::prelude::*;
use crate::assignment::{
    cells_of, is_grid, is_min_matching, kuhn_munkres_min_of, matrix_from_rows, solve_min,
    weights_in_range, MAX_COLUMNS, MAX_WEIGHT,
};
use crate::distance::{damerau_levenshtein, generic_distance, MAX_KEY_LEN};
use crate::fuzip::Fuzippable;
use crate::laws::{appears_once, law_each_index_once, law_equal_sizes_complete, law_record_count};
use crate::sequencer::{zip_plan, Fuzip2Iterator, Slot};

verus! {

/// The keys of a collection, in order.
pub open spec fn keys_of<T: Fuzippable>(s: Seq<T>) -> Seq<Seq<u8>> {
    s.map_values(|t: T| t.key_view())
}

/// The matrix of distances from each row key to each column key.
pub open spec fn cost_grid(rows: Seq<Seq<u8>>, columns: Seq<Seq<u8>>) -> Seq<Seq<i64>> {
    Seq::new(
        rows.len(),
        |i: int| Seq::new(columns.len(), |j: int| damerau_levenshtein(rows[i], columns[j]) as i64),
    )
}

/// The smaller side's keys (the left ones on a tie): the rows of the matrix.
pub open spec fn row_keys(lefts: Seq<Seq<u8>>, rights: Seq<Seq<u8>>) -> Seq<Seq<u8>> {
    if lefts.len() <= rights.len() {
        lefts
    } else {
        rights
    }
}

/// The larger side's keys: the columns of the matrix.
pub open spec fn column_keys(lefts: Seq<Seq<u8>>, rights: Seq<Seq<u8>>) -> Seq<Seq<u8>> {
    if lefts.len() <= rights.len() {
        rights
    } else {
        lefts
    }
}

/// The matrix that the engine solves for the keys of two collections.
pub open spec fn engine_costs(lefts: Seq<Seq<u8>>, rights: Seq<Seq<u8>>) -> Seq<Seq<i64>> {
    cost_grid(row_keys(lefts, rights), column_keys(lefts, rights))
}

/// The assignment of rows to columns that the engine picks.
pub open spec fn engine_assignment(lefts: Seq<Seq<u8>>, rights: Seq<Seq<u8>>) -> Seq<usize> {
    kuhn_munkres_min_of(engine_costs(lefts, rights))
}

/// The records, as indices, that the engine emits for the keys of two
/// collections.
pub open spec fn fuzzy_zip_plan(lefts: Seq<Seq<u8>>, rights: Seq<Seq<u8>>) -> Seq<Slot> {
    zip_plan(lefts.len(), rights.len(), engine_assignment(lefts, rights))
}

/// The sizes, the key lengths and the entries of the distance matrix of two
/// collections are within what the engine handles.
pub open spec fn within_limits(lefts: Seq<Seq<u8>>, rights: Seq<Seq<u8>>) -> bool {
    let rows = row_keys(lefts, rights);
    let columns = column_keys(lefts, rights);
    &&& lefts.len() <= MAX_COLUMNS
    &&& rights.len() <= MAX_COLUMNS
    &&& forall|i: int| 0 <= i < lefts.len() ==> (#[trigger] lefts[i]).len() <= MAX_KEY_LEN
    &&& forall|j: int| 0 <= j < rights.len() ==> (#[trigger] rights[j]).len() <= MAX_KEY_LEN
    &&& forall|i: int, j: int| 0 <= i < rows.len() && 0 <= j < columns.len()
        ==> damerau_levenshtein(#[trigger] rows[i], #[trigger] columns[j]) <= MAX_WEIGHT
}

/// The matrix of distances between the keys of `rows` and those of `columns`.
fn build_costs<T: Fuzippable>(rows: &[T], columns: &[T]) -> (m: Vec<Vec<i64>>)
    requires
        forall|i: int| 0 <= i < rows@.len() ==> (#[trigger] rows@[i]).key_view().len() <= MAX_KEY_LEN,
        forall|j: int| 0 <= j < columns@.len() ==> (#[trigger] columns@[j]).key_view().len() <= MAX_KEY_LEN,
        forall|i: int, j: int| 0 <= i < rows@.len() && 0 <= j < columns@.len()
            ==> #[trigger] damerau_levenshtein(rows@[i].key_view(), columns@[j].key_view()) <= MAX_WEIGHT,
    ensures
        m@.len() == rows@.len(),
        forall|i: int| 0 <= i < m@.len() ==> (#[trigger] m@[i])@ == cost_grid(keys_of(rows@), keys_of(columns@))[i],
{
    let ghost grid = cost_grid(keys_of(rows@), keys_of(columns@));
    let mut m: Vec<Vec<i64>> = Vec::new();
    let mut i: usize = 0;
    while i < rows.len()
        invariant
            i <= rows@.len(),
            forall|x: int| 0 <= x < rows@.len() ==> (#[trigger] rows@[x]).key_view().len() <= MAX_KEY_LEN,
            forall|y: int| 0 <= y < columns@.len() ==> (#[trigger] columns@[y]).key_view().len() <= MAX_KEY_LEN,
            forall|x: int, y: int| 0 <= x < rows@.len() && 0 <= y < columns@.len()
                ==> #[trigger] damerau_levenshtein(rows@[x].key_view(), columns@[y].key_view()) <= MAX_WEIGHT,
            grid == cost_grid(keys_of(rows@), keys_of(columns@)),
            m@.len() == i,
            forall|k: int| 0 <= k < i ==> (#[trigger] m@[k])@ == grid[k],
        decreases rows@.len() - i,
    {
        let mut row: Vec<i64> = Vec::new();
        let mut j: usize = 0;
        while j < columns.len()
            invariant
                i < rows@.len(),
                j <= columns@.len(),
                row@.len() == j,
                forall|x: int| 0 <= x < rows@.len() ==> (#[trigger] rows@[x]).key_view().len() <= MAX_KEY_LEN,
                forall|y: int| 0 <= y < columns@.len() ==> (#[trigger] columns@[y]).key_view().len() <= MAX_KEY_LEN,
                forall|x: int, y: int| 0 <= x < rows@.len() && 0 <= y < columns@.len()
                    ==> #[trigger] damerau_levenshtein(rows@[x].key_view(), columns@[y].key_view()) <= MAX_WEIGHT,
                grid == cost_grid(keys_of(rows@), keys_of(columns@)),
                forall|l: int| 0 <= l < j ==> #[trigger] row@[l] == grid[i as int][l],
            decreases columns@.len() - j,
        {
            let w = generic_distance(rows[i].key(), columns[j].key());
            assert(damerau_levenshtein(rows@[i as int].key_view(), columns@[j as int].key_view()) <= MAX_WEIGHT);
            row.push(w as i64);
            j = j + 1;
        }
        assert(row@ =~= grid[i as int]);
        m.push(row);
        i = i + 1;
    }
    m
}

/// Pairs the elements of `lefts` with those of `rights` so that the total
/// distance between paired keys is least, and emits one record per element of
/// the larger side: first the pairs, then the elements of the larger side
/// that found no partner, each beside an empty slot.
pub fn fuzzy_zip_two<'a, T: Fuzippable>(lefts: &'a [T], rights: &'a [T]) -> (r: Fuzip2Iterator<'a, T>)
    requires
        lefts@.len() > 0,
        rights@.len() > 0,
        within_limits(keys_of(lefts@), keys_of(rights@)),
    ensures
        r.wf(),
        r.position() == 0,
        r.lefts() == lefts,
        r.rights() == rights,
        r.slots() == fuzzy_zip_plan(keys_of(lefts@), keys_of(rights@)),
        is_min_matching(
            engine_costs(keys_of(lefts@), keys_of(rights@)),
            column_keys(keys_of(lefts@), keys_of(rights@)).len(),
            engine_assignment(keys_of(lefts@), keys_of(rights@)),
        ),
        r.slots().len() == if lefts@.len() <= rights@.len() { rights@.len() } else { lefts@.len() },
        forall|x: usize| x < lefts@.len() ==> #[trigger] appears_once(r.slots(), true, x),
        forall|x: usize| x < rights@.len() ==> #[trigger] appears_once(r.slots(), false, x),
        lefts@.len() == rights@.len() ==> forall|k: int| 0 <= k < r.slots().len()
            ==> (#[trigger] r.slots()[k]).0 is Some && r.slots()[k].1 is Some,
{
    let swapped = lefts.len() > rights.len();
    let (rows, columns) = if swapped {
        (rights, lefts)
    } else {
        (lefts, rights)
    };
    let ghost lk = keys_of(lefts@);
    let ghost rk = keys_of(rights@);
    assert(keys_of(rows@) == row_keys(lk, rk));
    assert(keys_of(columns@) == column_keys(lk, rk));
    assert forall|i: int| 0 <= i < rows@.len() implies (#[trigger] rows@[i]).key_view().len() <= MAX_KEY_LEN by {
        if swapped {
            assert(rk[i] == rows@[i].key_view());
        } else {
            assert(lk[i] == rows@[i].key_view());
        }
    }
    assert forall|j: int| 0 <= j < columns@.len() implies (#[trigger] columns@[j]).key_view().len() <= MAX_KEY_LEN by {
        if swapped {
            assert(lk[j] == columns@[j].key_view());
        } else {
            assert(rk[j] == columns@[j].key_view());
        }
    }
    assert forall|i: int, j: int| 0 <= i < rows@.len() && 0 <= j < columns@.len() implies
        #[trigger] damerau_levenshtein(rows@[i].key_view(), columns@[j].key_view()) <= MAX_WEIGHT by {
        assert(keys_of(rows@)[i] == rows@[i].key_view());
        assert(keys_of(columns@)[j] == columns@[j].key_view());
        assert(row_keys(lk, rk)[i] == rows@[i].key_view());
        assert(column_keys(lk, rk)[j] == columns@[j].key_view());
    }
    let n_columns = columns.len();
    let costs = build_costs(rows, columns);
    let ghost grid = cost_grid(keys_of(rows@), keys_of(columns@));
    assert forall|i: int| 0 <= i < costs@.len() implies #[trigger] costs@[i]@.len() == n_columns by {
        assert(costs@[i]@ == grid[i]);
    }
    assert(costs@.map_values(|r: Vec<i64>| r@) =~= grid);
    assert(costs@[0]@ == grid[0]);
    let matrix = matrix_from_rows(costs);
    assert(cells_of(matrix) == grid);
    assert(grid[0].len() == n_columns);
    assert(is_grid(grid, rows@.len() as nat, n_columns as nat));
    assert(weights_in_range(grid));
    let (_, assignments) = solve_min(&matrix);
    let r = Fuzip2Iterator::new(rows, columns, assignments, swapped);
    proof {
        let a = engine_assignment(lk, rk);
        law_record_count(lefts@.len(), rights@.len(), a);
        law_each_index_once(lefts@.len(), rights@.len(), a);
        if lefts@.len() == rights@.len() {
            law_equal_sizes_complete(lefts@.len(), a);
        }
    }
    r
}


/// Whether the key of every element of `side` is at most `MAX_KEY_LEN` long.
fn keys_short<T: Fuzippable>(side: &[T]) -> (r: bool)
    ensures
        r == forall|i: int| 0 <= i < side@.len() ==> (#[trigger] keys_of(side@)[i]).len() <= MAX_KEY_LEN,
{
    let mut i: usize = 0;
    while i < side.len()
        invariant
            i <= side@.len(),
            forall|x: int| 0 <= x < i ==> (#[trigger] keys_of(side@)[x]).len() <= MAX_KEY_LEN,
        decreases side@.len() - i,
    {
        if side[i].key().len() > MAX_KEY_LEN {
            assert(keys_of(side@)[i as int] == side@[i as int].key_view());
            return false;
        }
        i = i + 1;
    }
    true
}

/// Whether two collections are within what the engine handles: this computes
/// every distance of the matrix.
pub fn fits_limits<T: Fuzippable>(lefts: &[T], rights: &[T]) -> (r: bool)
    ensures
        r == within_limits(keys_of(lefts@), keys_of(rights@)),
{
    let ghost lk = keys_of(lefts@);
    let ghost rk = keys_of(rights@);
    if lefts.len() > MAX_COLUMNS || rights.len() > MAX_COLUMNS {
        return false;
    }
    if !keys_short(lefts) || !keys_short(rights) {
        return false;
    }
    let (rows, columns) = if lefts.len() <= rights.len() {
        (lefts, rights)
    } else {
        (rights, lefts)
    };
    let ghost rows_k = row_keys(lk, rk);
    let ghost columns_k = column_keys(lk, rk);
    assert(keys_of(rows@) == rows_k);
    assert(keys_of(columns@) == columns_k);
    let mut i: usize = 0;
    while i < rows.len()
        invariant
            i <= rows@.len(),
            keys_of(rows@) == rows_k,
            keys_of(columns@) == columns_k,
            rows_k == row_keys(lk, rk),
            columns_k == column_keys(lk, rk),
            lk == keys_of(lefts@),
            rk == keys_of(rights@),
            lefts@.len() <= MAX_COLUMNS,
            rights@.len() <= MAX_COLUMNS,
            forall|x: int| 0 <= x < lk.len() ==> (#[trigger] lk[x]).len() <= MAX_KEY_LEN,
            forall|y: int| 0 <= y < rk.len() ==> (#[trigger] rk[y]).len() <= MAX_KEY_LEN,

            forall|x: int| 0 <= x < rows_k.len() ==> (#[trigger] rows_k[x]).len() <= MAX_KEY_LEN,
            forall|y: int| 0 <= y < columns_k.len() ==> (#[trigger] columns_k[y]).len() <= MAX_KEY_LEN,
            forall|x: int, y: int| 0 <= x < i && 0 <= y < columns_k.len()
                ==> damerau_levenshtein(#[trigger] rows_k[x], #[trigger] columns_k[y]) <= MAX_WEIGHT,
        decreases rows@.len() - i,
    {
        let mut j: usize = 0;
        while j < columns.len()
            invariant
                i < rows@.len(),
                j <= columns@.len(),
                keys_of(rows@) == rows_k,
                keys_of(columns@) == columns_k,
                rows_k == row_keys(lk, rk),
                columns_k == column_keys(lk, rk),
                lk == keys_of(lefts@),
                rk == keys_of(rights@),
                lefts@.len() <= MAX_COLUMNS,
                rights@.len() <= MAX_COLUMNS,
                forall|x: int| 0 <= x < lk.len() ==> (#[trigger] lk[x]).len() <= MAX_KEY_LEN,
                forall|y: int| 0 <= y < rk.len() ==> (#[trigger] rk[y]).len() <= MAX_KEY_LEN,

                forall|x: int| 0 <= x < rows_k.len() ==> (#[trigger] rows_k[x]).len() <= MAX_KEY_LEN,
                forall|y: int| 0 <= y < columns_k.len() ==> (#[trigger] columns_k[y]).len() <= MAX_KEY_LEN,
                forall|x: int, y: int| 0 <= x < i && 0 <= y < columns_k.len()
                    ==> damerau_levenshtein(#[trigger] rows_k[x], #[trigger] columns_k[y]) <= MAX_WEIGHT,
                forall|y: int| 0 <= y < j ==> damerau_levenshtein(rows_k[i as int], #[trigger] columns_k[y]) <= MAX_WEIGHT,
            decreases columns@.len() - j,
        {
            assert(rows_k[i as int] == rows@[i as int].key_view());
            assert(columns_k[j as int] == columns@[j as int].key_view());
            let w = generic_distance(rows[i].key(), columns[j].key());
            if w > MAX_WEIGHT as usize {
                assert(damerau_levenshtein(row_keys(lk, rk)[i as int], column_keys(lk, rk)[j as int]) > MAX_WEIGHT);
                assert(!within_limits(lk, rk));
                return false;
            }
            j = j + 1;
        }
        i = i + 1;
    }
    true
}

/// `fuzzy_zip_two` on collections within the engine's limits; `None` on any
/// other pair of non-empty collections.
pub fn try_fuzzy_zip_two<'a, T: Fuzippable>(lefts: &'a [T], rights: &'a [T]) -> (r: Option<Fuzip2Iterator<'a, T>>)
    requires
        lefts@.len() > 0,
        rights@.len() > 0,
    ensures
        r is Some <==> within_limits(keys_of(lefts@), keys_of(rights@)),
        r matches Some(it) ==> {
            &&& it.wf()
            &&& it.position() == 0
            &&& it.lefts() == lefts
            &&& it.rights() == rights
            &&& it.slots() == fuzzy_zip_plan(keys_of(lefts@), keys_of(rights@))
            &&& is_min_matching(
                engine_costs(keys_of(lefts@), keys_of(rights@)),
                column_keys(keys_of(lefts@), keys_of(rights@)).len(),
                engine_assignment(keys_of(lefts@), keys_of(rights@)),
            )
        },
{
    if fits_limits(lefts, rights) {
        Some(fuzzy_zip_two(lefts, rights))
    } else {
        None
    }
}

} // verus!
