use vstd::prelude::*;

verus! {

/// A position in a matrix: a first (x) and a second (y) index.
#[derive(Debug, Clone, Copy, PartialEq, Eq, Structural)]
pub struct Pos(usize, usize);

impl Pos {
    /// The first index.
    pub closed spec fn spec_x(&self) -> nat {
        self.0 as nat
    }

    /// The second index.
    pub closed spec fn spec_y(&self) -> nat {
        self.1 as nat
    }

    /// Creates the position (`first`, `second`).
    pub fn new(first: usize, second: usize) -> (p: Self)
        ensures
            p.spec_x() == first,
            p.spec_y() == second,
    {
        Pos(first, second)
    }

    /// The first index.
    pub fn x(&self) -> (x: usize)
        ensures
            x == self.spec_x(),
    {
        self.0
    }

    /// The second index.
    pub fn y(&self) -> (y: usize)
        ensures
            y == self.spec_y(),
    {
        self.1
    }
}

impl From<(usize, usize)> for Pos {
    fn from(value: (usize, usize)) -> (p: Pos) {
        Pos(value.0, value.1)
    }
}

impl vstd::std_specs::convert::FromSpecImpl<(usize, usize)> for Pos {
    open spec fn obeys_from_spec() -> bool {
        true
    }

    open spec fn from_spec(value: (usize, usize)) -> Pos {
        Pos::new_spec(value.0, value.1)
    }
}

impl Pos {
    /// The position (`first`, `second`), as a mathematical value.
    pub closed spec fn new_spec(first: usize, second: usize) -> Pos {
        Pos(first, second)
    }

    /// A position made from a pair holds the pair's indices, so turning a
    /// pair into a position and back gives the pair.
    pub proof fn law_pair_round_trip(first: usize, second: usize)
        ensures
            Pos::new_spec(first, second).spec_x() == first,
            Pos::new_spec(first, second).spec_y() == second,
    {
    }

    /// Two positions with the same indices are the same position.
    pub proof fn law_equal_parts(a: Pos, b: Pos)
        requires
            a.spec_x() == b.spec_x(),
            a.spec_y() == b.spec_y(),
        ensures
            a == b,
    {
    }
}

impl From<Pos> for (usize, usize) {
    fn from(value: Pos) -> (r: (usize, usize)) {
        (value.0, value.1)
    }
}

impl vstd::std_specs::convert::FromSpecImpl<Pos> for (usize, usize) {
    open spec fn obeys_from_spec() -> bool {
        true
    }

    open spec fn from_spec(value: Pos) -> (usize, usize) {
        (value.spec_x() as usize, value.spec_y() as usize)
    }
}

} // verus!
