use vstd::prelude::*;

use crate::matrix::error::{decimal, decimal_text};
use crate::matrix::size::Size;

verus! {

/// A rectangle of matrix positions: rows `top..bottom` and columns `left..right`.
#[derive(Debug, Clone, Copy, PartialEq, Eq, Structural)]
pub struct Rect {
    top: usize,
    left: usize,
    right: usize,
    bottom: usize,
}

/// Collects the sides of a [`Rect`]; every side is 0 until it is set.
pub struct RectBuilder {
    top: usize,
    left: usize,
    right: usize,
    bottom: usize,
}

/// Why a rectangle could not be built.
#[derive(Debug, Clone, Copy, PartialEq, Eq, Structural)]
pub enum RectError {
    /// The left side lies right of the right side.
    InvalidHorizontal { left: usize, right: usize },
    /// The top side lies below the bottom side.
    InvalidVertical { top: usize, bottom: usize },
}

/// The sentence that describes a refused rectangle.
pub open spec fn rect_error_text(e: RectError) -> Seq<char> {
    match e {
        RectError::InvalidHorizontal { left, right } => "Invalid X-axiz: (left, right) = ("@
            + decimal_text(left as nat) + ", "@ + decimal_text(right as nat) + ")"@,
        RectError::InvalidVertical { top, bottom } => "Invalid X-axiz: (top, bottom) = ("@
            + decimal_text(top as nat) + ", "@ + decimal_text(bottom as nat) + ")"@,
    }
}

impl RectError {
    /// A sentence that describes the error, with the two sides.
    pub fn message(&self) -> (m: String)
        ensures
            m@ == rect_error_text(*self),
    {
        let (start, a, b) = match self {
            RectError::InvalidHorizontal { left, right } => (
                String::from_str("Invalid X-axiz: (left, right) = ("),
                *left,
                *right,
            ),
            RectError::InvalidVertical { top, bottom } => (
                String::from_str("Invalid X-axiz: (top, bottom) = ("),
                *top,
                *bottom,
            ),
        };
        let first = decimal(a);
        let second = decimal(b);
        let with_first = start.concat(first.as_str());
        let with_comma = with_first.concat(", ");
        let with_second = with_comma.concat(second.as_str());
        with_second.concat(")")
    }
}

impl Rect {
    /// The left side lies left of or on the right side, and the top above or
    /// on the bottom.
    #[verifier::type_invariant]
    spec fn sides_ordered(self) -> bool {
        self.left <= self.right && self.top <= self.bottom
    }

    /// The top side.
    pub closed spec fn spec_top(self) -> nat {
        self.top as nat
    }

    /// The left side.
    pub closed spec fn spec_left(self) -> nat {
        self.left as nat
    }

    /// The right side.
    pub closed spec fn spec_right(self) -> nat {
        self.right as nat
    }

    /// The bottom side.
    pub closed spec fn spec_bottom(self) -> nat {
        self.bottom as nat
    }

    /// A builder whose sides are all 0.
    pub fn builder() -> (b: RectBuilder)
        ensures
            b.spec_top() == 0 && b.spec_left() == 0 && b.spec_right() == 0 && b.spec_bottom() == 0,
    {
        RectBuilder { top: 0, left: 0, right: 0, bottom: 0 }
    }

    /// Two rectangles with the same four sides are the same rectangle.
    pub proof fn law_equal_sides(a: Rect, b: Rect)
        requires
            a.spec_top() == b.spec_top(),
            a.spec_left() == b.spec_left(),
            a.spec_right() == b.spec_right(),
            a.spec_bottom() == b.spec_bottom(),
        ensures
            a == b,
    {
    }

    /// The size of the rectangle: `bottom - top` rows and `right - left` columns.
    pub fn as_size(&self) -> (s: Size)
        ensures
            s.spec_rows() == self.spec_bottom() - self.spec_top(),
            s.spec_columns() == self.spec_right() - self.spec_left(),
    {
        proof {
            use_type_invariant(self);
        }
        Size::new(self.bottom - self.top, self.right - self.left)
    }
}

impl RectBuilder {
    /// The top side.
    pub closed spec fn spec_top(self) -> nat {
        self.top as nat
    }

    /// The left side.
    pub closed spec fn spec_left(self) -> nat {
        self.left as nat
    }

    /// The right side.
    pub closed spec fn spec_right(self) -> nat {
        self.right as nat
    }

    /// The bottom side.
    pub closed spec fn spec_bottom(self) -> nat {
        self.bottom as nat
    }

    /// Two builders with the same four sides are the same builder, so setting
    /// different sides in either order gives the same builder, and building
    /// it gives the same rectangle.
    pub proof fn law_equal_sides(a: RectBuilder, b: RectBuilder)
        requires
            a.spec_top() == b.spec_top(),
            a.spec_left() == b.spec_left(),
            a.spec_right() == b.spec_right(),
            a.spec_bottom() == b.spec_bottom(),
        ensures
            a == b,
    {
    }

    /// Sets the left side.
    pub fn left(self, v: usize) -> (b: Self)
        ensures
            b.spec_left() == v,
            b.spec_top() == self.spec_top(),
            b.spec_right() == self.spec_right(),
            b.spec_bottom() == self.spec_bottom(),
    {
        RectBuilder { left: v, ..self }
    }

    /// Sets the top side.
    pub fn top(self, v: usize) -> (b: Self)
        ensures
            b.spec_top() == v,
            b.spec_left() == self.spec_left(),
            b.spec_right() == self.spec_right(),
            b.spec_bottom() == self.spec_bottom(),
    {
        RectBuilder { top: v, ..self }
    }

    /// Sets the right side.
    pub fn right(self, v: usize) -> (b: Self)
        ensures
            b.spec_right() == v,
            b.spec_top() == self.spec_top(),
            b.spec_left() == self.spec_left(),
            b.spec_bottom() == self.spec_bottom(),
    {
        RectBuilder { right: v, ..self }
    }

    /// Sets the bottom side.
    pub fn bottom(self, v: usize) -> (b: Self)
        ensures
            b.spec_bottom() == v,
            b.spec_top() == self.spec_top(),
            b.spec_left() == self.spec_left(),
            b.spec_right() == self.spec_right(),
    {
        RectBuilder { bottom: v, ..self }
    }

    /// The rectangle with the collected sides: an error when the left side
    /// lies right of the right side (checked first) or the top below the bottom.
    pub fn build(&self) -> (r: Result<Rect, RectError>)
        ensures
            self.spec_left() > self.spec_right() ==> r == Err::<Rect, RectError>(
                RectError::InvalidHorizontal {
                    left: self.spec_left() as usize,
                    right: self.spec_right() as usize,
                },
            ),
            self.spec_left() <= self.spec_right() && self.spec_top() > self.spec_bottom() ==> r
                == Err::<Rect, RectError>(
                RectError::InvalidVertical {
                    top: self.spec_top() as usize,
                    bottom: self.spec_bottom() as usize,
                },
            ),
            self.spec_left() <= self.spec_right() && self.spec_top() <= self.spec_bottom() ==> (r matches Ok(
                rect,
            ) && rect.spec_top() == self.spec_top() && rect.spec_left() == self.spec_left()
                && rect.spec_right() == self.spec_right() && rect.spec_bottom()
                == self.spec_bottom()),
    {
        if self.left > self.right {
            return Err(RectError::InvalidHorizontal { left: self.left, right: self.right });
        }
        if self.top > self.bottom {
            return Err(RectError::InvalidVertical { top: self.top, bottom: self.bottom });
        }
        Ok(Rect { top: self.top, left: self.left, right: self.right, bottom: self.bottom })
    }
}

} // verus!
