use vstd::prelude::*;

use crate::matrix::{option_cloned, refers_to};
use crate::matrix::sparse::SparseMatrix;
use crate::matrix::simple::{stores, SimpleMatrix};

verus! {

/// A read gives back what a write stored: once `set` has stored `element` at
/// `row` and `col`, `get` there refers to `element`, and `get` at any other
/// position inside the matrix refers to what the cell held before the write.
pub proof fn law_get_returns_what_set_stored<M>(
    before: SimpleMatrix<M>,
    after: SimpleMatrix<M>,
    row: int,
    col: int,
    element: M,
    i: int,
    j: int,
    read: Option<&M>,
)
    requires
        stores(before, after, row, col, element),
        0 <= i < after.rows(),
        0 <= j < after.columns(),
        refers_to(read, after.at(i, j)),
    ensures
        i == row && j == col ==> (read matches Some(v) && *v == element),
        !(i == row && j == col) ==> refers_to(read, before.at(i, j)),
{
}

/// Of two writes to the same cell, the later one decides what the cell holds;
/// the other cells keep what they held before both.
pub proof fn law_later_set_wins<M>(
    first: SimpleMatrix<M>,
    second: SimpleMatrix<M>,
    third: SimpleMatrix<M>,
    row: int,
    col: int,
    a: M,
    b: M,
)
    requires
        stores(first, second, row, col, a),
        stores(second, third, row, col, b),
    ensures
        stores(first, third, row, col, b),
{
    assert forall|i: int, j: int|
        0 <= i < first.rows() && 0 <= j < first.columns() && (i != row || j != col) implies
        #[trigger] third.at(i, j) == first.at(i, j) by {
        assert(third.at(i, j) == second.at(i, j));
    }
}

/// Writing back what a cell held undoes a write: after storing `element` and
/// then the cell's earlier element, every cell holds what it held at first.
pub proof fn law_set_back_restores<M>(
    first: SimpleMatrix<M>,
    second: SimpleMatrix<M>,
    third: SimpleMatrix<M>,
    row: int,
    col: int,
    element: M,
    earlier: M,
)
    requires
        0 <= row < first.rows(),
        0 <= col < first.columns(),
        first.at(row, col) == Some(earlier),
        stores(first, second, row, col, element),
        stores(second, third, row, col, earlier),
    ensures
        third.rows() == first.rows(),
        third.columns() == first.columns(),
        forall|i: int, j: int|
            0 <= i < first.rows() && 0 <= j < first.columns() ==> #[trigger] third.at(i, j)
                == first.at(i, j),
{
    assert forall|i: int, j: int| 0 <= i < first.rows() && 0 <= j < first.columns() implies
        #[trigger] third.at(i, j) == first.at(i, j) by {
        if i != row || j != col {
            assert(third.at(i, j) == second.at(i, j));
        }
    }
}

/// For an element type whose clones equal what they were cloned from (such as
/// the integers), a simple matrix turned into a sparse one and back holds the
/// same cells: each conversion makes a cell of the result a clone of the same
/// cell of its source.
pub proof fn law_sparse_round_trip<M: Clone>(
    original: SimpleMatrix<M>,
    sparse: SparseMatrix<M>,
    back: SimpleMatrix<M>,
)
    requires
        forall|a: M, b: M| #[trigger] cloned(a, b) ==> a == b,
        sparse.rows() == original.rows(),
        sparse.columns() == original.columns(),
        forall|i: int, j: int|
            0 <= i < sparse.rows() && 0 <= j < sparse.columns() ==> option_cloned(
                original.at(i, j),
                #[trigger] sparse.at(i, j),
            ),
        back.rows() == sparse.rows(),
        back.columns() == sparse.columns(),
        forall|i: int, j: int|
            0 <= i < back.rows() && 0 <= j < back.columns() ==> option_cloned(
                sparse.at(i, j),
                #[trigger] back.at(i, j),
            ),
    ensures
        back.rows() == original.rows(),
        back.columns() == original.columns(),
        forall|i: int, j: int|
            0 <= i < original.rows() && 0 <= j < original.columns() ==> #[trigger] back.at(i, j)
                == original.at(i, j),
{
    assert forall|i: int, j: int| 0 <= i < original.rows() && 0 <= j < original.columns() implies
        #[trigger] back.at(i, j) == original.at(i, j) by {
        assert(option_cloned(original.at(i, j), sparse.at(i, j)));
        assert(option_cloned(sparse.at(i, j), back.at(i, j)));
    }
}

} // verus!
