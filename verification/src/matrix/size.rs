use vstd::prelude::*;

verus! {

/// The size of a matrix: a number of rows and a number of columns.
#[derive(Debug, Clone, Copy, PartialEq, Eq, Structural)]
pub struct Size(usize, usize);

impl Size {
    /// The number of rows, as a mathematical value.
    pub closed spec fn spec_rows(&self) -> nat {
        self.0 as nat
    }

    /// The number of columns, as a mathematical value.
    pub closed spec fn spec_columns(&self) -> nat {
        self.1 as nat
    }

    /// Creates a size of `first` rows and `second` columns.
    pub fn new(first: usize, second: usize) -> (s: Self)
        ensures
            s.spec_rows() == first,
            s.spec_columns() == second,
    {
        Size(first, second)
    }

    /// The number of rows.
    pub fn rows(&self) -> (r: usize)
        ensures
            r == self.spec_rows(),
    {
        self.0
    }

    /// The number of columns.
    pub fn columns(&self) -> (c: usize)
        ensures
            c == self.spec_columns(),
    {
        self.1
    }

    /// Two sizes with the same rows and the same columns are the same size;
    /// in particular `Size::new(s.rows(), s.columns())` is `s`.
    pub proof fn law_equal_parts(a: Size, b: Size)
        requires
            a.spec_rows() == b.spec_rows(),
            a.spec_columns() == b.spec_columns(),
        ensures
            a == b,
    {
    }
}

} // verus!
