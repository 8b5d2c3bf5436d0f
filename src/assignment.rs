//! Minimum-cost assignment of rows to columns.
use vstd::prelude::*;
use pathfinding::matrix::Matrix;

verus! {

#[verifier::external_type_specification]
#[verifier::external_body]
#[verifier::reject_recursive_types(C)]
pub struct ExMatrix<C>(Matrix<C>);

/// The rows of a matrix of weights, each as the sequence of its cells.
pub uninterp spec fn cells_of(m: Matrix<i64>) -> Seq<Seq<i64>>;

/// The assignment that the Kuhn-Munkres solver picks for a matrix, given by
/// its rows.
pub uninterp spec fn kuhn_munkres_min_of(cells: Seq<Seq<i64>>) -> Seq<usize>;

/// The largest weight that a cell may hold.
pub const MAX_WEIGHT: i64 = 1048576;

/// The most columns that a matrix may have.
pub const MAX_COLUMNS: usize = 65536;

/// `cells` has `rows` rows of `columns` cells each.
pub open spec fn is_grid(cells: Seq<Seq<i64>>, rows: nat, columns: nat) -> bool {
    &&& cells.len() == rows
    &&& forall|i: int| 0 <= i < rows ==> #[trigger] cells[i].len() == columns
}

/// Every cell of `cells` lies between zero and `MAX_WEIGHT`.
pub open spec fn weights_in_range(cells: Seq<Seq<i64>>) -> bool {
    forall|i: int, j: int|
        0 <= i < cells.len() && 0 <= j < cells[i].len() ==> 0 <= #[trigger] cells[i][j] <= MAX_WEIGHT
}

/// `a` assigns to each of `rows` rows a column below `columns`, no column
/// twice.
pub open spec fn is_matching(a: Seq<usize>, rows: nat, columns: nat) -> bool {
    &&& a.len() == rows
    &&& forall|i: int| 0 <= i < a.len() ==> #[trigger] a[i] < columns
    &&& forall|i: int, k: int| 0 <= i < a.len() && 0 <= k < a.len() && i != k ==> a[i] != a[k]
}

/// The total weight of the cells that `a` selects among the first `n` rows.
pub open spec fn total_weight(cells: Seq<Seq<i64>>, a: Seq<usize>, n: nat) -> int
    decreases n,
{
    if n == 0 {
        0
    } else {
        total_weight(cells, a, (n - 1) as nat) + cells[n - 1][a[n - 1] as int]
    }
}

/// `a` is a matching of all rows of `cells` whose total weight no other
/// matching undercuts.
pub open spec fn is_min_matching(cells: Seq<Seq<i64>>, columns: nat, a: Seq<usize>) -> bool {
    &&& is_matching(a, cells.len(), columns)
    &&& forall|b: Seq<usize>| #[trigger] is_matching(b, cells.len(), columns)
        ==> total_weight(cells, a, cells.len()) <= total_weight(cells, b, cells.len())
}

/// Relies on pathfinding's Matrix::from_rows, which lays the given rows out
/// as a matrix, row after row, and fails only when the rows differ in length
/// or are empty.
#[verifier::external_body]
pub(crate) fn matrix_from_rows(rows: Vec<Vec<i64>>) -> (m: Matrix<i64>)
    requires
        rows@.len() > 0,
        rows@[0]@.len() > 0,
        forall|i: int| 0 <= i < rows@.len() ==> #[trigger] rows@[i]@.len() == rows@[0]@.len(),
    ensures
        cells_of(m) == rows@.map_values(|r: Vec<i64>| r@),
{
    Matrix::from_rows(rows).unwrap()
}

/// Relies on pathfinding's kuhn_munkres_min: for a matrix with no more rows
/// than columns it returns a column for each row, no column twice, such that
/// the sum of the selected weights is minimal, together with that sum. The
/// result depends on the weights alone. It panics when there are more rows
/// than columns, or when that sum or a label of the algorithm overflows: with
/// weights between zero and `MAX_WEIGHT` and at most `MAX_COLUMNS` columns,
/// every label and partial sum stays below 2^53 in magnitude.
#[verifier::external_body]
pub(crate) fn solve_min(m: &Matrix<i64>) -> (r: (i64, Vec<usize>))
    requires
        cells_of(*m).len() > 0,
        is_grid(cells_of(*m), cells_of(*m).len(), cells_of(*m)[0].len()),
        cells_of(*m).len() <= cells_of(*m)[0].len() <= MAX_COLUMNS,
        weights_in_range(cells_of(*m)),
    ensures
        r.1@ == kuhn_munkres_min_of(cells_of(*m)),
        is_min_matching(cells_of(*m), cells_of(*m)[0].len(), r.1@),
        r.0 == total_weight(cells_of(*m), r.1@, cells_of(*m).len()),
{
    pathfinding::kuhn_munkres::kuhn_munkres_min(m)
}

} // verus!
