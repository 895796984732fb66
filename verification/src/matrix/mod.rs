pub mod error;
pub mod laws;
pub mod op;
pub mod pos;
pub mod rect;
pub mod simple;
pub mod size;
pub mod sparse;

use vstd::prelude::*;

use crate::matrix::error::MatrixError;
use crate::matrix::size::Size;

verus! {

/// `r` refers to the element that `expected` holds, or to none when it holds none.
pub open spec fn refers_to<M>(r: Option<&M>, expected: Option<M>) -> bool {
    match r {
        Some(v) => expected == Some(*v),
        None => expected is None,
    }
}

/// `b` is a copy of `a` made by `Clone`: both empty, or both holding an
/// element, the second a clone of the first.
pub open spec fn option_cloned<M: Clone>(a: Option<M>, b: Option<M>) -> bool {
    match a {
        Some(x) => b matches Some(y) && cloned(x, y),
        None => b is None,
    }
}

/// A matrix whose cells each hold an element or nothing.
pub trait Matrix<M>: Sized {
    /// The number of rows and of columns.
    spec fn shape(&self) -> Size;

    /// What the cell at `row` and `col` holds.
    spec fn cell(&self, row: int, col: int) -> Option<M>;

    /// The matrix keeps its own invariant.
    spec fn well_formed(&self) -> bool;

    /// The number of rows and of columns.
    fn size(&self) -> (s: Size)
        requires
            self.well_formed(),
        ensures
            s == self.shape(),
    ;

    /// The element at `row` and `col`, if any; an error when the position lies
    /// outside the matrix.
    fn get(&self, row: usize, col: usize) -> (r: Result<Option<&M>, MatrixError>)
        requires
            self.well_formed(),
        ensures
            row < self.shape().spec_rows() && col < self.shape().spec_columns() ==> (r matches Ok(
                o,
            ) && refers_to(o, self.cell(row as int, col as int))),
            !(row < self.shape().spec_rows() && col < self.shape().spec_columns()) ==> r is Err,
    ;
}

} // verus!
