use vstd::prelude::*;

use crate::matrix::error::MatrixError;
use crate::matrix::simple::SimpleMatrix;
use crate::matrix::size::Size;
use crate::matrix::{option_cloned, refers_to, Matrix};

verus! {

/// A matrix that stores only the cells that hold an element, row by row
/// (compressed sparse rows): `values[k]` is the element in column
/// `col_indices[k]`, and the elements of row `r` are those at positions
/// `row_ptr[r]..row_ptr[r + 1]`, in increasing column order.
#[derive(Debug, Clone)]
pub struct SparseMatrix<M> {
    size: Size,
    values: Vec<M>,
    col_indices: Vec<usize>,
    row_ptr: Vec<usize>,
}

/// The first position in `lo..hi` whose column is `c`.
pub open spec fn first_match(cols: Seq<usize>, lo: int, hi: int, c: int) -> Option<int>
    decreases hi - lo,
{
    if lo >= hi {
        None
    } else if cols[lo] == c {
        Some(lo)
    } else {
        first_match(cols, lo + 1, hi, c)
    }
}

/// `first_match` reads only the positions in `lo..hi`.
proof fn lemma_first_match_local(a: Seq<usize>, b: Seq<usize>, lo: int, hi: int, c: int)
    requires
        forall|k: int| lo <= k < hi ==> a[k] == b[k],
    ensures
        first_match(a, lo, hi, c) == first_match(b, lo, hi, c),
    decreases hi - lo,
{
    if lo < hi {
        lemma_first_match_local(a, b, lo + 1, hi, c);
    }
}

/// What `first_match` finds lies in `lo..hi` and has column `c`; when it finds
/// nothing, no position there has column `c`.
proof fn lemma_first_match_found(cols: Seq<usize>, lo: int, hi: int, c: int)
    ensures
        first_match(cols, lo, hi, c) matches Some(k) ==> lo <= k < hi && cols[k] == c,
        first_match(cols, lo, hi, c) is None ==> forall|k: int| lo <= k < hi ==> cols[k] != c,
    decreases hi - lo,
{
    if lo < hi {
        lemma_first_match_found(cols, lo + 1, hi, c);
    }
}

/// Extending a range by a position whose column is `c2` finds it for `c2`
/// when no earlier position has that column, and changes nothing for the other
/// columns.
proof fn lemma_first_match_extend(cols: Seq<usize>, lo: int, hi: int, c: int)
    requires
        lo <= hi,
    ensures
        first_match(cols, lo, hi + 1, c) == if first_match(cols, lo, hi, c) is Some {
            first_match(cols, lo, hi, c)
        } else if cols[hi] == c {
            Some(hi)
        } else {
            None::<int>
        },
    decreases hi - lo,
{
    if lo < hi {
        lemma_first_match_extend(cols, lo + 1, hi, c);
    } else {
        reveal_with_fuel(first_match, 2);
    }
}

/// The cell at `row` and `col` of the compressed rows `values`, `cols`, `ptr`.
pub open spec fn csr_cell<M>(
    values: Seq<M>,
    cols: Seq<usize>,
    ptr: Seq<usize>,
    row: int,
    col: int,
) -> Option<M> {
    match first_match(cols, ptr[row] as int, ptr[row + 1] as int, col) {
        Some(k) => Some(values[k]),
        None => None,
    }
}

/// A row whose positions lie in a common prefix of two stores reads the same
/// in both.
proof fn lemma_csr_cell_prefix<M>(
    values: Seq<M>,
    cols: Seq<usize>,
    ptr: Seq<usize>,
    values2: Seq<M>,
    cols2: Seq<usize>,
    ptr2: Seq<usize>,
    row: int,
    col: int,
    n: int,
)
    requires
        ptr[row] == ptr2[row],
        ptr[row + 1] == ptr2[row + 1],
        ptr[row] <= ptr[row + 1] <= n,
        n <= values.len(),
        n <= values2.len(),
        n <= cols.len(),
        n <= cols2.len(),
        forall|k: int| 0 <= k < n ==> values[k] == values2[k] && cols[k] == cols2[k],
    ensures
        csr_cell(values, cols, ptr, row, col) == csr_cell(values2, cols2, ptr2, row, col),
{
    lemma_first_match_local(cols, cols2, ptr[row] as int, ptr[row + 1] as int, col);
    lemma_first_match_found(cols, ptr[row] as int, ptr[row + 1] as int, col);
}

impl<M> SparseMatrix<M> {
    /// The row pointers start at 0, never decrease and end at the number of
    /// stored elements; every stored column lies inside the matrix, and the
    /// columns of each row increase.
    #[verifier::opaque]
    pub closed spec fn well_formed(&self) -> bool {
        let rows = self.size.spec_rows();
        let cols = self.size.spec_columns();
        &&& self.row_ptr@.len() == rows + 1
        &&& self.row_ptr@[0] == 0
        &&& forall|i: int, j: int|
            0 <= i <= j <= rows ==> #[trigger] self.row_ptr@[i] <= #[trigger] self.row_ptr@[j]
        &&& self.row_ptr@[rows as int] == self.values@.len()
        &&& self.col_indices@.len() == self.values@.len()
        &&& forall|k: int|
            0 <= k < self.col_indices@.len() ==> #[trigger] self.col_indices@[k] < cols
        &&& forall|r: int, a: int, b: int|
            #![trigger self.row_ptr@[r], self.col_indices@[a], self.col_indices@[b]]
            0 <= r < rows && self.row_ptr@[r] <= a < b < self.row_ptr@[r + 1]
                ==> self.col_indices@[a] < self.col_indices@[b]
    }

    /// The number of rows and of columns.
    pub closed spec fn dims(&self) -> Size {
        self.size
    }

    /// Where the stored elements of each row start, and after the last row
    /// where they end.
    pub closed spec fn row_starts(&self) -> Seq<usize> {
        self.row_ptr@
    }

    /// The column of each stored element.
    pub closed spec fn stored_columns(&self) -> Seq<usize> {
        self.col_indices@
    }

    /// The number of stored elements.
    pub closed spec fn stored_count(&self) -> nat {
        self.values@.len()
    }

    /// The layout that every sparse matrix keeps: one row start per row and
    /// one more, starting at 0, never decreasing and ending at the number of
    /// stored elements; one column per stored element, inside the matrix;
    /// and increasing columns within each row.
    pub proof fn law_layout(&self)
        requires
            self.well_formed(),
        ensures
            self.row_starts().len() == self.rows() + 1,
            self.row_starts()[0] == 0,
            forall|i: int, j: int|
                0 <= i <= j <= self.rows() ==> #[trigger] self.row_starts()[i]
                    <= #[trigger] self.row_starts()[j],
            self.row_starts()[self.rows() as int] == self.stored_count(),
            self.stored_columns().len() == self.stored_count(),
            forall|k: int|
                0 <= k < self.stored_count() ==> #[trigger] self.stored_columns()[k]
                    < self.columns(),
            forall|r: int, a: int, b: int|
                #![trigger self.row_starts()[r], self.stored_columns()[a], self.stored_columns()[b]]
                0 <= r < self.rows() && self.row_starts()[r] <= a < b < self.row_starts()[r + 1]
                    ==> self.stored_columns()[a] < self.stored_columns()[b],
    {
        reveal(SparseMatrix::well_formed);
    }

    /// The number of rows.
    pub open spec fn rows(&self) -> nat {
        self.dims().spec_rows()
    }

    /// The number of columns.
    pub open spec fn columns(&self) -> nat {
        self.dims().spec_columns()
    }

    /// What the cell at `row` and `col` holds.
    pub closed spec fn at(&self, row: int, col: int) -> Option<M> {
        csr_cell(self.values@, self.col_indices@, self.row_ptr@, row, col)
    }

    /// The size of the matrix.
    pub fn size(&self) -> (s: Size)
        ensures
            s.spec_rows() == self.rows(),
            s.spec_columns() == self.columns(),
    {
        self.size
    }

    /// The element at `row` and `col`, if any; an error when the position lies
    /// outside the matrix.
    pub fn get(&self, row: usize, col: usize) -> (r: Result<Option<&M>, MatrixError>)
        requires
            self.well_formed(),
        ensures
            row < self.rows() && col < self.columns() ==> (r matches Ok(o) && refers_to(
                o,
                self.at(row as int, col as int),
            )),
            !(row < self.rows() && col < self.columns()) ==> r == Err::<Option<&M>, MatrixError>(
                MatrixError::SparseIndexOutOfBound,
            ),
    {
        reveal(SparseMatrix::well_formed);
        if row >= self.size.rows() || col >= self.size.columns() {
            return Err(MatrixError::SparseIndexOutOfBound);
        }
        let start = self.row_ptr[row];
        let end = self.row_ptr[row + 1];
        assert(self.row_ptr@[row as int] <= self.row_ptr@[row + 1]);
        assert(self.row_ptr@[row + 1] <= self.row_ptr@[self.rows() as int]);
        let count = end - start;
        if count == 0 {
            return Ok(None);
        }
        let mut k = start;
        while k < end
            invariant
                row < self.rows(),
                col < self.columns(),
                start == self.row_ptr@[row as int],
                end == self.row_ptr@[row + 1],
                start <= k <= end,
                end <= self.values@.len(),
                self.col_indices@.len() == self.values@.len(),
                first_match(self.col_indices@, start as int, end as int, col as int) == first_match(
                    self.col_indices@,
                    k as int,
                    end as int,
                    col as int,
                ),
            decreases end - k,
        {
            if self.col_indices[k] == col {
                return Ok(Some(&self.values[k]));
            }
            k = k + 1;
        }
        Ok(None)
    }
}

impl<M: Clone> SparseMatrix<M> {
    /// A sparse matrix with the size of `mat` and a clone of each of its
    /// elements.
    pub fn from_matrix<T: Matrix<M>>(mat: &T) -> (m: Self)
        requires
            mat.well_formed(),
        ensures
            m.well_formed(),
            m.rows() == mat.shape().spec_rows(),
            m.columns() == mat.shape().spec_columns(),
            forall|i: int, j: int|
                0 <= i < m.rows() && 0 <= j < m.columns() ==> option_cloned(
                    mat.cell(i, j),
                    #[trigger] m.at(i, j),
                ),
    {
        let size = mat.size();
        let rows = size.rows();
        let cols = size.columns();
        let mut values: Vec<M> = Vec::new();
        let mut col_indices: Vec<usize> = Vec::new();
        let mut row_ptr: Vec<usize> = Vec::new();
        row_ptr.push(0);
        let mut r: usize = 0;
        while r < rows
            invariant
                mat.well_formed(),
                rows == mat.shape().spec_rows(),
                cols == mat.shape().spec_columns(),
                r <= rows,
                row_ptr@.len() == r + 1,
                row_ptr@[0] == 0,
                forall|i: int, j: int|
                    0 <= i <= j <= r ==> #[trigger] row_ptr@[i] <= #[trigger] row_ptr@[j],
                row_ptr@[r as int] == values@.len(),
                col_indices@.len() == values@.len(),
                forall|k: int| 0 <= k < col_indices@.len() ==> #[trigger] col_indices@[k] < cols,
                forall|q: int, a: int, b: int|
                    #![trigger row_ptr@[q], col_indices@[a], col_indices@[b]]
                    0 <= q < r && row_ptr@[q] <= a < b < row_ptr@[q + 1] ==> col_indices@[a]
                        < col_indices@[b],
                forall|a: int, b: int|
                    0 <= a < r && 0 <= b < cols ==> option_cloned(
                        mat.cell(a, b),
                        #[trigger] csr_cell(values@, col_indices@, row_ptr@, a, b),
                    ),
            decreases rows - r,
        {
            let ghost vs0 = values@;
            let ghost cs0 = col_indices@;
            let ghost ps0 = row_ptr@;
            let start = values.len();
            let mut c: usize = 0;
            while c < cols
                invariant
                    mat.well_formed(),
                    rows == mat.shape().spec_rows(),
                    cols == mat.shape().spec_columns(),
                    r < rows,
                    c <= cols,
                    start == vs0.len(),
                    start <= values@.len(),
                    col_indices@.len() == values@.len(),
                    values@.subrange(0, start as int) == vs0,
                    col_indices@.subrange(0, start as int) == cs0,
                    forall|k: int| 0 <= k < cs0.len() ==> #[trigger] cs0[k] < cols,
                    forall|k: int| start <= k < col_indices@.len() ==> #[trigger] col_indices@[k] < c,
                    forall|a: int, b: int|
                        start <= a < b < col_indices@.len() ==> #[trigger] col_indices@[a]
                            < #[trigger] col_indices@[b],
                    forall|b: int|
                        0 <= b < c ==> option_cloned(
                            mat.cell(r as int, b),
                            match first_match(col_indices@, start as int, values@.len() as int, b) {
                                Some(k) => Some(values@[k]),
                                None => None,
                            },
                        ),
                decreases cols - c,
            {
                let ghost vs1 = values@;
                let ghost cs1 = col_indices@;
                match mat.get(r, c) {
                    Ok(Some(v)) => {
                        values.push(v.clone());
                        col_indices.push(c);
                        proof {
                            assert(values@.subrange(0, start as int) =~= vs1.subrange(0, start as int));
                            assert(col_indices@.subrange(0, start as int) =~= cs1.subrange(0, start as int));
                            assert forall|b: int| 0 <= b < c + 1 implies option_cloned(
                                mat.cell(r as int, b),
                                match first_match(col_indices@, start as int, values@.len() as int, b) {
                                    Some(k) => Some(values@[k]),
                                    None => None,
                                },
                            ) by {
                                lemma_first_match_local(cs1, col_indices@, start as int, vs1.len() as int, b);
                                lemma_first_match_extend(col_indices@, start as int, vs1.len() as int, b);
                                lemma_first_match_found(col_indices@, start as int, vs1.len() as int, b);
                                if b < c {
                                    assert(first_match(cs1, start as int, vs1.len() as int, b) matches Some(k) ==> values@[k] == vs1[k]);
                                }
                            }
                        }
                    },
                    _ => {
                        proof {
                            assert forall|b: int| 0 <= b < c + 1 implies option_cloned(
                                mat.cell(r as int, b),
                                match first_match(col_indices@, start as int, values@.len() as int, b) {
                                    Some(k) => Some(values@[k]),
                                    None => None,
                                },
                            ) by {
                                if b == c {
                                    lemma_first_match_found(col_indices@, start as int, values@.len() as int, b);
                                }
                            }
                        }
                    },
                }
                c = c + 1;
            }
            row_ptr.push(values.len());
            proof {
                assert forall|k: int| 0 <= k < col_indices@.len() implies #[trigger] col_indices@[k]
                    < cols by {
                    if k < start {
                        assert(cs0[k] == col_indices@.subrange(0, start as int)[k]);
                    }
                }
                assert forall|a: int, b: int|
                    0 <= a < r + 1 && 0 <= b < cols implies option_cloned(
                        mat.cell(a, b),
                        #[trigger] csr_cell(values@, col_indices@, row_ptr@, a, b),
                    ) by {
                    if a < r {
                        assert(ps0[a] <= ps0[a + 1] <= ps0[r as int]);
                        assert forall|k: int| 0 <= k < start implies vs0[k] == values@[k] && cs0[k]
                            == col_indices@[k] by {
                            assert(vs0[k] == values@.subrange(0, start as int)[k]);
                            assert(cs0[k] == col_indices@.subrange(0, start as int)[k]);
                        }
                        lemma_csr_cell_prefix(vs0, cs0, ps0, values@, col_indices@, row_ptr@, a, b, start as int);
                    } else {
                        assert(row_ptr@[a] == start);
                        assert(row_ptr@[a + 1] == values@.len());
                    }
                }
                assert forall|q: int, a: int, b: int|
                    #![trigger row_ptr@[q], col_indices@[a], col_indices@[b]]
                    0 <= q < r + 1 && row_ptr@[q] <= a < b < row_ptr@[q + 1] implies col_indices@[a]
                        < col_indices@[b] by {
                    if q < r {
                        assert(ps0[q] <= ps0[q + 1] <= ps0[r as int]);
                        assert(cs0[a] == col_indices@.subrange(0, start as int)[a]);
                        assert(cs0[b] == col_indices@.subrange(0, start as int)[b]);
                        assert(ps0[q] == row_ptr@[q]);
                    }
                }
            }
            r = r + 1;
        }
        let m = SparseMatrix { size, values, col_indices, row_ptr };
        assert(m.well_formed()) by {
            reveal(SparseMatrix::well_formed);
        }
        m
    }
}

proof fn lemma_copy_of_empty<M: Clone>(mat: &SimpleMatrix<M>, m: &SparseMatrix<M>)
    requires
        m.rows() == mat.rows(),
        m.columns() == mat.columns(),
        forall|i: int, j: int|
            0 <= i < mat.rows() && 0 <= j < mat.columns() ==> #[trigger] mat.at(i, j) is None,
        forall|i: int, j: int|
            0 <= i < m.rows() && 0 <= j < m.columns() ==> option_cloned(
                mat.cell(i, j),
                #[trigger] m.at(i, j),
            ),
    ensures
        forall|i: int, j: int|
            0 <= i < m.rows() && 0 <= j < m.columns() ==> #[trigger] m.at(i, j) is None,
{
    assert forall|i: int, j: int|
        0 <= i < m.rows() && 0 <= j < m.columns() implies #[trigger] m.at(i, j) is None by {
        assert(mat.at(i, j) is None);
        assert(option_cloned(mat.cell(i, j), m.at(i, j)));
    }
}

impl<M: Clone> SparseMatrix<M> {
    /// A sparse matrix of the given size with no elements; an error when it
    /// has no rows or no columns.
    pub fn empty(size: Size) -> (r: Result<Self, MatrixError>)
        ensures
            size.spec_rows() == 0 || size.spec_columns() == 0 ==> r == Err::<Self, MatrixError>(
                MatrixError::ZeroSized,
            ),
            size.spec_rows() > 0 && size.spec_columns() > 0 ==> (r matches Ok(m) && m.well_formed()
                && m.rows() == size.spec_rows() && m.columns() == size.spec_columns() && forall|
                i: int,
                j: int,
            | 0 <= i < m.rows() && 0 <= j < m.columns() ==> #[trigger] m.at(i, j) is None),
    {
        let rows = size.rows();
        let cols = size.columns();
        if cols == 0 || rows == 0 {
            return Err(MatrixError::ZeroSized);
        }
        let mat = match SimpleMatrix::<M>::new(rows, cols) {
            Ok(mat) => mat,
            Err(e) => {
                return Err(e);
            },
        };
        let m = SparseMatrix::from_matrix(&mat);
        proof {
            lemma_copy_of_empty(&mat, &m);
        }
        Ok(m)
    }

    /// The cells on the diagonal, cloned, when the matrix is square; `None`
    /// otherwise.
    pub fn diagonal_components(&self) -> (r: Option<Vec<Option<M>>>)
        requires
            self.well_formed(),
        ensures
            self.rows() != self.columns() ==> r is None,
            self.rows() == self.columns() ==> (r matches Some(d) && d@.len() == self.rows()
                && forall|p: int|
                0 <= p < self.rows() ==> option_cloned(self.at(p, p), #[trigger] d@[p])),
    {
        if self.size.rows() != self.size.columns() {
            return None;
        }
        let n = self.size.rows();
        let mut ret: Vec<Option<M>> = Vec::new();
        let mut i: usize = 0;
        while i < n
            invariant
                self.well_formed(),
                n == self.rows(),
                n == self.columns(),
                i <= n,
                ret@.len() == i,
                forall|k: int| 0 <= k < i ==> option_cloned(self.at(k, k), #[trigger] ret@[k]),
            decreases n - i,
        {
            match self.get(i, i) {
                Ok(v) => ret.push(v.cloned()),
                Err(_) => ret.push(None),
            }
            i = i + 1;
        }
        Some(ret)
    }
}

impl<M> SparseMatrix<M> {
    /// A matrix with the same cells filled, holding `extract` applied to the
    /// elements of this one.
    pub fn extract<N, F: Fn(&M) -> N>(&self, extract: F) -> (r: SparseMatrix<N>)
        requires
            self.well_formed(),
            forall|v: &M| #[trigger] extract.requires((v,)),
        ensures
            r.well_formed(),
            r.rows() == self.rows(),
            r.columns() == self.columns(),
            forall|i: int, j: int|
                #![trigger r.at(i, j)]
                0 <= i < self.rows() && 0 <= j < self.columns() ==> match self.at(i, j) {
                    Some(v) => (r.at(i, j) matches Some(w) && extract.ensures((&v,), w)),
                    None => r.at(i, j) is None,
                },
    {
        reveal(SparseMatrix::well_formed);
        let mut values: Vec<N> = Vec::new();
        let mut k: usize = 0;
        while k < self.values.len()
            invariant
                k <= self.values@.len(),
                values@.len() == k,
                forall|v: &M| #[trigger] extract.requires((v,)),
                forall|j: int| 0 <= j < k ==> extract.ensures((&self.values@[j],), #[trigger] values@[j]),
            decreases self.values@.len() - k,
        {
            values.push(extract(&self.values[k]));
            k = k + 1;
        }
        let mut col_indices: Vec<usize> = Vec::new();
        let mut k: usize = 0;
        while k < self.col_indices.len()
            invariant
                k <= self.col_indices@.len(),
                col_indices@ == self.col_indices@.take(k as int),
            decreases self.col_indices@.len() - k,
        {
            col_indices.push(self.col_indices[k]);
            k = k + 1;
            assert(col_indices@ =~= self.col_indices@.take(k as int));
        }
        let mut row_ptr: Vec<usize> = Vec::new();
        let mut k: usize = 0;
        while k < self.row_ptr.len()
            invariant
                k <= self.row_ptr@.len(),
                row_ptr@ == self.row_ptr@.take(k as int),
            decreases self.row_ptr@.len() - k,
        {
            row_ptr.push(self.row_ptr[k]);
            k = k + 1;
            assert(row_ptr@ =~= self.row_ptr@.take(k as int));
        }
        assert(col_indices@ =~= self.col_indices@);
        assert(row_ptr@ =~= self.row_ptr@);
        let m = SparseMatrix { size: self.size, values, col_indices, row_ptr };
        assert forall|i: int, j: int|
            #![trigger m.at(i, j)]
            0 <= i < self.rows() && 0 <= j < self.columns() implies match self.at(i, j) {
                Some(v) => (m.at(i, j) matches Some(w) && extract.ensures((&v,), w)),
                None => m.at(i, j) is None,
            } by {
            assert(self.row_ptr@[i] <= self.row_ptr@[i + 1] <= self.row_ptr@[self.rows() as int]);
            lemma_first_match_found(self.col_indices@, self.row_ptr@[i] as int, self.row_ptr@[i + 1] as int, j);
        }
        m
    }
}

impl<M> Matrix<M> for SparseMatrix<M> {
    open spec fn shape(&self) -> Size {
        self.dims()
    }

    open spec fn cell(&self, row: int, col: int) -> Option<M> {
        self.at(row, col)
    }

    open spec fn well_formed(&self) -> bool {
        SparseMatrix::well_formed(self)
    }

    fn size(&self) -> (s: Size) {
        self.size
    }

    fn get(&self, row: usize, col: usize) -> (r: Result<Option<&M>, MatrixError>) {
        SparseMatrix::get(self, row, col)
    }
}

} // verus!
