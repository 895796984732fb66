use vstd::prelude::*;

use core::ops::{Add, Mul};
use vstd::std_specs::ops::{AddSpec, MulSpec};

use crate::matrix::error::MatrixError;
use crate::matrix::simple::{stores, SimpleMatrix};
use crate::matrix::{refers_to, Matrix};

verus! {

/// `z` is a value that `M::default()` can return.
pub open spec fn is_default<M: Default>(z: M) -> bool {
    call_ensures(M::default, (), z)
}

/// The sum, starting from `start`, of the products of row `i` of `lhs` and
/// column `j` of `rhs` over the first `count` positions, in increasing order
/// of position; a position where either cell holds nothing adds nothing.
pub open spec fn dot<M, T: Matrix<M>, U: Matrix<M>>(
    lhs: T,
    rhs: U,
    start: M,
    i: int,
    j: int,
    count: nat,
) -> M where M: Add<Output = M> + Mul<Output = M>
    decreases count,
{
    if count == 0 {
        start
    } else {
        let acc = dot(lhs, rhs, start, i, j, (count - 1) as nat);
        match (lhs.cell(i, count - 1), rhs.cell(count - 1, j)) {
            (Some(a), Some(b)) => acc.add_spec(a.mul_spec(b)),
            _ => acc,
        }
    }
}

/// Every product of the multiplication of `lhs` by `rhs`, and every sum of a
/// product with the sum before it, starting from `start`, is allowed by the
/// arithmetic of `M` (for integers: does not overflow).
pub open spec fn arithmetic_allowed<M, T: Matrix<M>, U: Matrix<M>>(lhs: T, rhs: U, start: M) -> bool where
    M: Add<Output = M> + Mul<Output = M>,
 {
    forall|i: int, j: int, k: int|
        #![trigger lhs.cell(i, k), rhs.cell(k, j)]
        0 <= i < lhs.shape().spec_rows() && 0 <= j < rhs.shape().spec_columns() && 0 <= k
            < lhs.shape().spec_columns() ==> match (lhs.cell(i, k), rhs.cell(k, j)) {
            (Some(a), Some(b)) => a.mul_req(b) && dot(lhs, rhs, start, i, j, k as nat).add_req(
                a.mul_spec(b),
            ),
            _ => true,
        }
}

/// `cell` holds the entry at row `i` and column `j` of the product of `lhs`
/// and `rhs`: the sum of the products, from a value that `M::default()`
/// returns.
pub open spec fn is_product_cell<M, T: Matrix<M>, U: Matrix<M>>(
    cell: Option<M>,
    lhs: T,
    rhs: U,
    i: int,
    j: int,
) -> bool where M: Add<Output = M> + Mul<Output = M> + Default {
    exists|z: M| is_default(z) && cell == Some(dot(lhs, rhs, z, i, j, lhs.shape().spec_columns()))
}

/// The product of `lhs` and `rhs`: a matrix with the rows of `lhs` and the
/// columns of `rhs` whose entry at row `i` and column `j` is the sum, from
/// `M::default()`, of `lhs[i][k] * rhs[k][j]` over the positions `k` where both
/// cells hold an element. An error when the columns of `lhs` are not as many
/// as the rows of `rhs`, or when the product would have no rows or no columns.
pub fn mul<M, T: Matrix<M>, U: Matrix<M>>(lhs: &T, rhs: &U) -> (r: Result<SimpleMatrix<M>, MatrixError>) where
    M: Add<Output = M> + Mul<Output = M> + Default + Copy,

    requires
        lhs.well_formed(),
        rhs.well_formed(),
        M::obeys_add_spec(),
        M::obeys_mul_spec(),
        forall|z: M| is_default(z) ==> arithmetic_allowed(*lhs, *rhs, z),
    ensures
        lhs.shape().spec_columns() != rhs.shape().spec_rows() ==> r == Err::<
            SimpleMatrix<M>,
            MatrixError,
        >(
            MatrixError::IncompatibleShapes {
                columns: lhs.shape().spec_columns() as usize,
                rows: rhs.shape().spec_rows() as usize,
            },
        ),
        lhs.shape().spec_columns() == rhs.shape().spec_rows() && (lhs.shape().spec_rows() == 0
            || rhs.shape().spec_columns() == 0) ==> r == Err::<SimpleMatrix<M>, MatrixError>(
            MatrixError::ZeroDimension,
        ),
        lhs.shape().spec_columns() == rhs.shape().spec_rows() && lhs.shape().spec_rows() > 0
            && rhs.shape().spec_columns() > 0 ==> (r matches Ok(m) && m.well_formed() && m.rows()
            == lhs.shape().spec_rows() && m.columns() == rhs.shape().spec_columns() && forall|
            i: int,
            j: int,
        |
            0 <= i < m.rows() && 0 <= j < m.columns() ==> #[trigger] is_product_cell(
                m.at(i, j),
                *lhs,
                *rhs,
                i,
                j,
            )),
{
    let ls = lhs.size();
    let rs = rhs.size();
    if ls.columns() != rs.rows() {
        return Err(MatrixError::IncompatibleShapes { columns: ls.columns(), rows: rs.rows() });
    }
    let rows = ls.rows();
    let cols = rs.columns();
    let n = ls.columns();
    let mut ret = match SimpleMatrix::new(rows, cols) {
        Ok(m) => m,
        Err(e) => {
            return Err(e);
        },
    };
    let mut i: usize = 0;
    while i < rows
        invariant
            lhs.well_formed(),
            rhs.well_formed(),
            M::obeys_add_spec(),
            M::obeys_mul_spec(),
            forall|z: M| is_default(z) ==> arithmetic_allowed(*lhs, *rhs, z),
            rows == lhs.shape().spec_rows(),
            cols == rhs.shape().spec_columns(),
            n == lhs.shape().spec_columns(),
            n == rhs.shape().spec_rows(),
            ret.well_formed(),
            ret.rows() == rows,
            ret.columns() == cols,
            i <= rows,
            forall|a: int, b: int|
                0 <= a < i && 0 <= b < cols ==> #[trigger] is_product_cell(
                    ret.at(a, b),
                    *lhs,
                    *rhs,
                    a,
                    b,
                ),
        decreases rows - i,
    {
        let mut j: usize = 0;
        while j < cols
            invariant
                lhs.well_formed(),
                rhs.well_formed(),
                M::obeys_add_spec(),
                M::obeys_mul_spec(),
                forall|z: M| is_default(z) ==> arithmetic_allowed(*lhs, *rhs, z),
                rows == lhs.shape().spec_rows(),
                cols == rhs.shape().spec_columns(),
                n == lhs.shape().spec_columns(),
                n == rhs.shape().spec_rows(),
                ret.well_formed(),
                ret.rows() == rows,
                ret.columns() == cols,
                i < rows,
                j <= cols,
                forall|a: int, b: int|
                    (0 <= a < i && 0 <= b < cols) || (a == i && 0 <= b < j)
                        ==> #[trigger] is_product_cell(ret.at(a, b), *lhs, *rhs, a, b),
            decreases cols - j,
        {
            let mut sum: M = M::default();
            let ghost start: M = sum;
            assert(is_default(start));
            assert(arithmetic_allowed(*lhs, *rhs, start));
            let mut k: usize = 0;
            while k < n
                invariant
                    lhs.well_formed(),
                    rhs.well_formed(),
                    M::obeys_add_spec(),
                    M::obeys_mul_spec(),
                    arithmetic_allowed(*lhs, *rhs, start),
                    rows == lhs.shape().spec_rows(),
                    cols == rhs.shape().spec_columns(),
                    n == lhs.shape().spec_columns(),
                    n == rhs.shape().spec_rows(),
                    i < rows,
                    j < cols,
                    k <= n,
                    sum == dot(*lhs, *rhs, start, i as int, j as int, k as nat),
                decreases n - k,
            {
                let a = lhs.get(i, k);
                let b = rhs.get(k, j);
                match (a, b) {
                    (Ok(Some(x)), Ok(Some(y))) => {
                        sum = sum + *x * *y;
                    },
                    _ => {},
                }
                k = k + 1;
            }
            let ghost before = ret;
            let _ = ret.set(i, j, sum);
            assert forall|a: int, b: int|
                (0 <= a < i && 0 <= b < cols) || (a == i && 0 <= b < j + 1) implies #[trigger] is_product_cell(
                ret.at(a, b),
                *lhs,
                *rhs,
                a,
                b,
            ) by {
                if a == i && b == j {
                    assert(is_default(start) && ret.at(a, b) == Some(
                        dot(*lhs, *rhs, start, a, b, lhs.shape().spec_columns()),
                    ));
                } else {
                    assert(ret.at(a, b) == before.at(a, b));
                    assert(is_product_cell(before.at(a, b), *lhs, *rhs, a, b));
                }
            }
            j = j + 1;
        }
        i = i + 1;
    }
    Ok(ret)
}

} // verus!
