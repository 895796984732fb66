use vstd::prelude::*;

use crate::matrix::option_cloned;
use crate::matrix::simple::SimpleMatrix;
use crate::matrix::size::Size;

verus! {

/// How a vector becomes a matrix: as one column or as one row.
#[derive(Debug, PartialEq, Clone, Copy, Structural)]
pub enum TransposeMethod {
    Column,
    Row,
}

/// The size of the matrix that a vector of `len` elements becomes: `len` rows
/// and one column, or one row and `len` columns.
pub fn transposed_size(method: TransposeMethod, len: usize) -> (s: Size)
    ensures
        method == TransposeMethod::Column ==> s.spec_rows() == len && s.spec_columns() == 1,
        method == TransposeMethod::Row ==> s.spec_rows() == 1 && s.spec_columns() == len,
{
    match method {
        TransposeMethod::Column => Size::new(len, 1),
        TransposeMethod::Row => Size::new(1, len),
    }
}

/// The matrix position of element `idx` of a vector: row `idx` of column 0, or
/// column `idx` of row 0.
pub fn transposed_position(method: TransposeMethod, idx: usize) -> (p: (usize, usize))
    ensures
        method == TransposeMethod::Column ==> p == (idx, 0usize),
        method == TransposeMethod::Row ==> p == (0usize, idx),
{
    match method {
        TransposeMethod::Column => (idx, 0),
        TransposeMethod::Row => (0, idx),
    }
}

/// The cell of the matrix that element `idx` of a vector becomes.
pub open spec fn cell_of(method: TransposeMethod, idx: int) -> (int, int) {
    match method {
        TransposeMethod::Column => (idx, 0),
        TransposeMethod::Row => (0, idx),
    }
}

/// The matrix that `values` becomes: one column with a row per value, or one
/// row with a column per value, each cell a clone of its value. There is at
/// least one value.
pub fn to_matrix<M: Clone>(values: &[M], method: TransposeMethod) -> (m: SimpleMatrix<M>)
    requires
        values@.len() > 0,
    ensures
        m.well_formed(),
        method == TransposeMethod::Column ==> m.rows() == values@.len() && m.columns() == 1,
        method == TransposeMethod::Row ==> m.rows() == 1 && m.columns() == values@.len(),
        forall|k: int|
            0 <= k < values@.len() ==> option_cloned(Some(values@[k]), #[trigger] m.at(cell_of(method, k).0, cell_of(method, k).1)),
{
    let len = values.len();
    let size = transposed_size(method, len);
    let mut mat = SimpleMatrix::blank(size.rows(), size.columns());
    let mut idx: usize = 0;
    while idx < len
        invariant
            len == values@.len(),
            idx <= len,
            mat.well_formed(),
            method == TransposeMethod::Column ==> mat.rows() == len && mat.columns() == 1,
            method == TransposeMethod::Row ==> mat.rows() == 1 && mat.columns() == len,
            forall|k: int|
                0 <= k < idx ==> option_cloned(Some(values@[k]), #[trigger] mat.at(cell_of(method, k).0, cell_of(method, k).1)),
        decreases len - idx,
    {
        let (row, col) = transposed_position(method, idx);
        let ghost before = mat;
        let v = values[idx].clone();
        let _ = mat.set(row, col, v);
        assert forall|k: int| 0 <= k < idx + 1 implies option_cloned(Some(values@[k]), #[trigger] mat.at(cell_of(method, k).0, cell_of(method, k).1)) by {
            if k < idx {
                assert(option_cloned(Some(values@[k]), before.at(cell_of(method, k).0, cell_of(method, k).1)));
            }
        }
        idx = idx + 1;
    }
    mat
}

} // verus!
