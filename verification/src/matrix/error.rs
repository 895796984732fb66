use vstd::prelude::*;

verus! {

/// Why a matrix operation was refused.
#[derive(Debug, Clone, Copy, PartialEq, Eq, Structural)]
pub enum MatrixError {
    /// A simple matrix was asked for with no rows or no columns.
    ZeroDimension,
    /// A position lies outside a simple matrix.
    IndexOutOfBounds,
    /// A row lies outside a simple matrix.
    RowOutOfBounds(usize),
    /// A sparse matrix was asked for with no rows or no columns.
    ZeroSized,
    /// A position lies outside a sparse matrix.
    SparseIndexOutOfBound,
    /// Two matrices were to be multiplied whose inner sizes differ: the
    /// columns of the left one and the rows of the right one.
    IncompatibleShapes { columns: usize, rows: usize },
}

/// The character of a decimal digit `d` (below 10).
pub open spec fn digit_char(d: nat) -> char {
    (d + 48) as char
}

/// The decimal digits of `n`, most significant first, without leading zeros.
pub open spec fn decimal_text(n: nat) -> Seq<char>
    decreases n,
{
    if n < 10 {
        seq![digit_char(n)]
    } else {
        decimal_text(n / 10).push(digit_char(n % 10))
    }
}

/// `usize`'s `to_string`, which goes through `Display`; std documents that
/// integers display in decimal, without sign or leading zeros, and the claim
/// is that the text is [`decimal_text`] of the number.
#[verifier::external_body]
pub(crate) fn decimal(n: usize) -> (s: String)
    ensures
        s@ == decimal_text(n as nat),
{
    n.to_string()
}

/// The sentence that describes an error.
pub open spec fn message_text(e: MatrixError) -> Seq<char> {
    match e {
        MatrixError::ZeroDimension => "Row and column must be greater than zero"@,
        MatrixError::IndexOutOfBounds => "Index out of bounds"@,
        MatrixError::RowOutOfBounds(row) => "Can not get row : "@ + decimal_text(row as nat),
        MatrixError::ZeroSized => "can not create 0-sized matrix"@,
        MatrixError::SparseIndexOutOfBound => "Index out of bound"@,
        MatrixError::IncompatibleShapes { columns, rows } => "Can not multiply different number of columns and rows : "@
            + decimal_text(columns as nat) + " / "@ + decimal_text(rows as nat),
    }
}

impl MatrixError {
    /// A sentence that describes the error.
    pub fn message(&self) -> (m: String)
        ensures
            m@ == message_text(*self),
    {
        match self {
            MatrixError::ZeroDimension => String::from_str("Row and column must be greater than zero"),
            MatrixError::IndexOutOfBounds => String::from_str("Index out of bounds"),
            MatrixError::RowOutOfBounds(row) => {
                let start = String::from_str("Can not get row : ");
                let digits = decimal(*row);
                start.concat(digits.as_str())
            },
            MatrixError::ZeroSized => String::from_str("can not create 0-sized matrix"),
            MatrixError::SparseIndexOutOfBound => String::from_str("Index out of bound"),
            MatrixError::IncompatibleShapes { columns, rows } => {
                let start = String::from_str(
                    "Can not multiply different number of columns and rows : ",
                );
                let c = decimal(*columns);
                let r = decimal(*rows);
                let with_columns = start.concat(c.as_str());
                let with_slash = with_columns.concat(" / ");
                with_slash.concat(r.as_str())
            },
        }
    }
}

} // verus!
