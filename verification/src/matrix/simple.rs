use vstd::prelude::*;

use crate::matrix::error::MatrixError;
use crate::matrix::size::Size;
use crate::matrix::{option_cloned, refers_to, Matrix};

verus! {

/// A matrix that stores every cell, row by row.
#[derive(Debug, Clone)]
pub struct SimpleMatrix<M> {
    size: Size,
    values: Vec<Vec<Option<M>>>,
}

impl<M> SimpleMatrix<M> {
    /// At least one row and one column, and one stored row of `columns` cells
    /// per row.
    pub closed spec fn well_formed(&self) -> bool {
        &&& self.size.spec_rows() > 0
        &&& self.size.spec_columns() > 0
        &&& self.values@.len() == self.size.spec_rows()
        &&& forall|i: int|
            0 <= i < self.values@.len() ==> (#[trigger] self.values@[i])@.len()
                == self.size.spec_columns()
    }

    /// The number of rows and of columns.
    pub closed spec fn dims(&self) -> Size {
        self.size
    }

    /// The number of rows.
    pub open spec fn rows(&self) -> nat {
        self.dims().spec_rows()
    }

    /// The number of columns.
    pub open spec fn columns(&self) -> nat {
        self.dims().spec_columns()
    }

    /// What the cell at `row` and `col` holds.
    pub closed spec fn at(&self, row: int, col: int) -> Option<M> {
        self.values@[row]@[col]
    }

    /// A matrix of `row` rows and `column` columns with every cell empty; an
    /// error when either is 0.
    pub fn new(row: usize, column: usize) -> (r: Result<Self, MatrixError>)
        ensures
            row == 0 || column == 0 ==> r == Err::<Self, MatrixError>(MatrixError::ZeroDimension),
            row > 0 && column > 0 ==> (r matches Ok(m) && m.well_formed() && m.rows() == row && m.columns() == column
                && forall|i: int, j: int| 0 <= i < row && 0 <= j < column ==> m.at(i, j) is None),
    {
        if row == 0 || column == 0 {
            return Err(MatrixError::ZeroDimension);
        }
        Ok(SimpleMatrix::blank(row, column))
    }

    /// A matrix of `row` rows and `column` columns with every cell empty.
    pub(crate) fn blank(row: usize, column: usize) -> (m: Self)
        requires
            row > 0,
            column > 0,
        ensures
            m.well_formed(),
            m.rows() == row,
            m.columns() == column,
            forall|i: int, j: int| 0 <= i < row && 0 <= j < column ==> m.at(i, j) is None,
    {
        let mut values: Vec<Vec<Option<M>>> = Vec::new();
        let mut i: usize = 0;
        while i < row
            invariant
                i <= row,
                values@.len() == i,
                forall|k: int| 0 <= k < i ==> (#[trigger] values@[k])@.len() == column,
                forall|k: int, j: int|
                    0 <= k < i && 0 <= j < column ==> #[trigger] values@[k]@[j] is None,
            decreases row - i,
        {
            let mut cells: Vec<Option<M>> = Vec::new();
            let mut j: usize = 0;
            while j < column
                invariant
                    j <= column,
                    cells@.len() == j,
                    forall|l: int| 0 <= l < j ==> (#[trigger] cells@[l]) is None,
                decreases column - j,
            {
                cells.push(None);
                j = j + 1;
            }
            values.push(cells);
            i = i + 1;
        }
        let size = Size::new(row, column);
        SimpleMatrix { size, values }
    }

    /// The size of the matrix.
    pub fn size(&self) -> (s: Size)
        requires
            self.well_formed(),
        ensures
            s.spec_rows() > 0 && s.spec_columns() > 0,
            s.spec_rows() == self.rows(),
            s.spec_columns() == self.columns(),
    {
        self.size
    }

    /// The element at `row` and `col`, if any; an error when the position lies
    /// outside the matrix.
    pub fn get(&self, row: usize, col: usize) -> (r: Result<Option<&M>, MatrixError>)
        requires
            self.well_formed(),
        ensures
            row < self.rows() && col < self.columns() ==> (r matches Ok(o) && refers_to(
                o,
                self.at(row as int, col as int),
            )),
            !(row < self.rows() && col < self.columns()) ==> r == Err::<Option<&M>, MatrixError>(
                MatrixError::IndexOutOfBounds,
            ),
    {
        if row >= self.size.rows() || col >= self.size.columns() {
            return Err(MatrixError::IndexOutOfBounds);
        }
        Ok(self.values[row][col].as_ref())
    }

    /// Stores `element` at `row` and `col` and gives back what the cell held
    /// before; an error, with the matrix unchanged, when the position lies
    /// outside the matrix.
    pub fn set(&mut self, row: usize, col: usize, element: M) -> (r: Result<Option<M>, MatrixError>)
        requires
            old(self).well_formed(),
        ensures
            final(self).well_formed(),
            final(self).rows() == old(self).rows(),
            final(self).columns() == old(self).columns(),
            row < old(self).rows() && col < old(self).columns() ==> {
                &&& r == Ok::<Option<M>, MatrixError>(old(self).at(row as int, col as int))
                &&& stores(*old(self), *final(self), row as int, col as int, element)
            },
            !(row < old(self).rows() && col < old(self).columns()) ==> {
                &&& r == Err::<Option<M>, MatrixError>(MatrixError::IndexOutOfBounds)
                &&& forall|i: int, j: int|
                    0 <= i < old(self).rows() && 0 <= j < old(self).columns() ==> final(self).at(
                        i,
                        j,
                    ) == old(self).at(i, j)
            },
    {
        if row >= self.size.rows() || col >= self.size.columns() {
            return Err(MatrixError::IndexOutOfBounds);
        }
        let mut cell = Some(element);
        let mut cells: Vec<Option<M>> = Vec::new();
        self.values.set_and_swap(row, &mut cells);
        cells.set_and_swap(col, &mut cell);
        self.values.set_and_swap(row, &mut cells);
        Ok(cell)
    }
}

/// `after` is `before` with `element` in the cell at `row` and `col`: same
/// size, and every other cell as it was.
pub open spec fn stores<M>(before: SimpleMatrix<M>, after: SimpleMatrix<M>, row: int, col: int, element: M) -> bool {
    &&& after.rows() == before.rows()
    &&& after.columns() == before.columns()
    &&& after.at(row, col) == Some(element)
    &&& forall|i: int, j: int|
        0 <= i < before.rows() && 0 <= j < before.columns() && (i != row || j != col)
            ==> #[trigger] after.at(i, j) == before.at(i, j)
}

impl<M> SimpleMatrix<M> {
    /// A matrix of the same size whose cells hold `extract` applied to the
    /// elements of this one, and nothing where this one holds nothing.
    pub fn extract<N, F: Fn(&M) -> N>(&self, extract: F) -> (r: SimpleMatrix<N>)
        requires
            self.well_formed(),
            forall|v: &M| #[trigger] extract.requires((v,)),
        ensures
            r.well_formed(),
            r.rows() == self.rows(),
            r.columns() == self.columns(),
            forall|i: int, j: int|
                #![trigger r.at(i, j)]
                0 <= i < self.rows() && 0 <= j < self.columns() ==> match self.at(i, j) {
                    Some(v) => (r.at(i, j) matches Some(w) && extract.ensures((&v,), w)),
                    None => r.at(i, j) is None,
                },
    {
        let rows = self.size.rows();
        let cols = self.size.columns();
        let mut mat: SimpleMatrix<N> = SimpleMatrix::blank(rows, cols);
        let mut i: usize = 0;
        while i < rows
            invariant
                self.well_formed(),
                mat.well_formed(),
                rows == self.rows(),
                cols == self.columns(),
                mat.rows() == rows,
                mat.columns() == cols,
                i <= rows,
                forall|v: &M| #[trigger] extract.requires((v,)),
                forall|a: int, b: int|
                    0 <= a < i && 0 <= b < cols ==> match self.at(a, b) {
                        Some(v) => (#[trigger] mat.at(a, b) matches Some(w) && extract.ensures((&v,), w)),
                        None => mat.at(a, b) is None,
                    },
                forall|a: int, b: int| i <= a < rows && 0 <= b < cols ==> #[trigger] mat.at(a, b) is None,
            decreases rows - i,
        {
            let mut j: usize = 0;
            while j < cols
                invariant
                    self.well_formed(),
                    mat.well_formed(),
                    rows == self.rows(),
                    cols == self.columns(),
                    mat.rows() == rows,
                    mat.columns() == cols,
                    i < rows,
                    j <= cols,
                    forall|v: &M| #[trigger] extract.requires((v,)),
                    forall|a: int, b: int|
                        (0 <= a < i && 0 <= b < cols) || (a == i && 0 <= b < j) ==> match self.at(a, b) {
                            Some(v) => (#[trigger] mat.at(a, b) matches Some(w) && extract.ensures((&v,), w)),
                            None => mat.at(a, b) is None,
                        },
                    forall|a: int, b: int|
                        (i < a < rows && 0 <= b < cols) || (a == i && j <= b < cols) ==> #[trigger] mat.at(a, b) is None,
                decreases cols - j,
            {
                assert(self.values@[i as int]@.len() == cols);
                match &self.values[i][j] {
                    Some(v) => {
                        let w = extract(v);
                        let _ = mat.set(i, j, w);
                    },
                    None => {},
                }
                j = j + 1;
            }
            i = i + 1;
        }
        mat
    }
}

impl<M: Clone> SimpleMatrix<M> {
    /// The cells on the diagonal, cloned, when the matrix is square; `None`
    /// otherwise.
    pub fn diagonal_components(&self) -> (r: Option<Vec<Option<M>>>)
        requires
            self.well_formed(),
        ensures
            self.rows() != self.columns() ==> r is None,
            self.rows() == self.columns() ==> (r matches Some(d) && d@.len() == self.rows()
                && forall|p: int|
                0 <= p < self.rows() ==> option_cloned(self.at(p, p), #[trigger] d@[p])),
    {
        if self.size.rows() != self.size.columns() {
            return None;
        }
        let n = self.size.rows();
        let mut ret: Vec<Option<M>> = Vec::new();
        let mut p: usize = 0;
        while p < n
            invariant
                self.well_formed(),
                n == self.rows(),
                n == self.columns(),
                p <= n,
                ret@.len() == p,
                forall|k: int| 0 <= k < p ==> option_cloned(self.at(k, k), #[trigger] ret@[k]),
            decreases n - p,
        {
            assert(self.values@[p as int]@.len() == self.columns());
            ret.push(self.values[p][p].clone());
            p = p + 1;
        }
        Some(ret)
    }

    /// The cells of `row`, cloned; an error when the row lies outside the
    /// matrix.
    pub fn get_row(&self, row: usize) -> (r: Result<Vec<Option<M>>, MatrixError>)
        requires
            self.well_formed(),
        ensures
            row >= self.rows() ==> r == Err::<Vec<Option<M>>, MatrixError>(
                MatrixError::RowOutOfBounds(row),
            ),
            row < self.rows() ==> (r matches Ok(v) && v@.len() == self.columns() && forall|j: int|
                0 <= j < self.columns() ==> option_cloned(self.at(row as int, j), #[trigger] v@[j])),
    {
        if row >= self.size.rows() {
            return Err(MatrixError::RowOutOfBounds(row));
        }
        let cols = self.size.columns();
        let mut v: Vec<Option<M>> = Vec::new();
        let mut j: usize = 0;
        while j < cols
            invariant
                self.well_formed(),
                row < self.rows(),
                cols == self.columns(),
                j <= cols,
                v@.len() == j,
                forall|k: int|
                    0 <= k < j ==> option_cloned(self.at(row as int, k), #[trigger] v@[k]),
            decreases cols - j,
        {
            assert(self.values@[row as int]@.len() == self.columns());
            v.push(self.values[row][j].clone());
            j = j + 1;
        }
        Ok(v)
    }

    /// Stores clones of `elements` in the first cells of `row`, leaving the
    /// rest of the matrix as it was; an error, with the matrix unchanged, when
    /// the row lies outside the matrix. More elements than columns are not
    /// accepted in a row that exists.
    pub fn set_row(&mut self, row: usize, elements: &[Option<M>]) -> (r: Result<(), MatrixError>)
        requires
            old(self).well_formed(),
            row < old(self).rows() ==> elements@.len() <= old(self).columns(),
        ensures
            final(self).well_formed(),
            final(self).rows() == old(self).rows(),
            final(self).columns() == old(self).columns(),
            row >= old(self).rows() ==> r == Err::<(), MatrixError>(MatrixError::RowOutOfBounds(row)),
            row < old(self).rows() ==> r is Ok,
            forall|i: int, j: int|
                0 <= i < old(self).rows() && 0 <= j < old(self).columns() ==> {
                    if i == row && j < elements@.len() {
                        option_cloned(elements@[j], #[trigger] final(self).at(i, j))
                    } else {
                        final(self).at(i, j) == old(self).at(i, j)
                    }
                },
    {
        if row >= self.size.rows() {
            return Err(MatrixError::RowOutOfBounds(row));
        }
        let mut cells: Vec<Option<M>> = Vec::new();
        self.values.set_and_swap(row, &mut cells);
        let mut i: usize = 0;
        while i < elements.len()
            invariant
                i <= elements@.len(),
                elements@.len() <= old(self).columns(),
                cells@.len() == old(self).columns(),
                forall|j: int|
                    0 <= j < cells@.len() ==> if j < i {
                        option_cloned(elements@[j], #[trigger] cells@[j])
                    } else {
                        cells@[j] == old(self).values@[row as int]@[j]
                    },
            decreases elements@.len() - i,
        {
            let mut e = elements[i].clone();
            cells.set_and_swap(i, &mut e);
            i = i + 1;
        }
        self.values.set_and_swap(row, &mut cells);
        Ok(())
    }

    /// A simple matrix with the size of `other` and a clone of each of its
    /// elements. `other` has at least one row and one column.
    pub fn from_matrix<T: Matrix<M>>(other: &T) -> (m: Self)
        requires
            other.well_formed(),
            other.shape().spec_rows() > 0,
            other.shape().spec_columns() > 0,
        ensures
            m.well_formed(),
            m.rows() == other.shape().spec_rows(),
            m.columns() == other.shape().spec_columns(),
            forall|i: int, j: int|
                0 <= i < m.rows() && 0 <= j < m.columns() ==> option_cloned(
                    other.cell(i, j),
                    #[trigger] m.at(i, j),
                ),
    {
        let size = other.size();
        let rows = size.rows();
        let cols = size.columns();
        let mut mat = SimpleMatrix::blank(rows, cols);
        let mut i: usize = 0;
        while i < rows
            invariant
                mat.well_formed(),
                other.well_formed(),
                rows == other.shape().spec_rows(),
                cols == other.shape().spec_columns(),
                mat.rows() == rows,
                mat.columns() == cols,
                i <= rows,
                forall|a: int, b: int|
                    0 <= a < i && 0 <= b < cols ==> option_cloned(
                        other.cell(a, b),
                        #[trigger] mat.at(a, b),
                    ),
                forall|a: int, b: int| i <= a < rows && 0 <= b < cols ==> #[trigger] mat.at(a, b) is None,
            decreases rows - i,
        {
            let mut j: usize = 0;
            while j < cols
                invariant
                    mat.well_formed(),
                    other.well_formed(),
                    rows == other.shape().spec_rows(),
                    cols == other.shape().spec_columns(),
                    mat.rows() == rows,
                    mat.columns() == cols,
                    i < rows,
                    j <= cols,
                    forall|a: int, b: int|
                        0 <= a < i && 0 <= b < cols ==> option_cloned(
                            other.cell(a, b),
                            #[trigger] mat.at(a, b),
                        ),
                    forall|b: int|
                        0 <= b < j ==> option_cloned(other.cell(i as int, b), #[trigger] mat.at(i as int, b)),
                    forall|a: int, b: int|
                        (i < a < rows && 0 <= b < cols) || (a == i && j <= b < cols) ==> #[trigger] mat.at(a, b) is None,
                decreases cols - j,
            {
                match other.get(i, j) {
                    Ok(Some(m)) => {
                        let _ = mat.set(i, j, m.clone());
                    },
                    _ => {},
                }
                j = j + 1;
            }
            i = i + 1;
        }
        mat
    }
}

impl<M> Matrix<M> for SimpleMatrix<M> {
    open spec fn shape(&self) -> Size {
        self.dims()
    }

    open spec fn cell(&self, row: int, col: int) -> Option<M> {
        self.at(row, col)
    }

    open spec fn well_formed(&self) -> bool {
        SimpleMatrix::well_formed(self)
    }

    fn size(&self) -> (s: Size) {
        self.size
    }

    fn get(&self, row: usize, col: usize) -> (r: Result<Option<&M>, MatrixError>) {
        SimpleMatrix::get(self, row, col)
    }
}

} // verus!
