use vstd::prelude::*;

use crate::equation::operator::Operator;

verus! {

/// A range `start..end` of character positions in an equation's text.
#[derive(Debug, Clone, Copy, PartialEq, Eq, Structural)]
pub struct Span {
    pub start: usize,
    pub end: usize,
}

/// The syntax tree of an equation. Numbers and names stand in the tree as the
/// spans of the text they were written with.
#[derive(Debug, PartialEq)]
pub enum Expr {
    /// A number standing alone, such as `-5.0`.
    Constant(Span),
    /// A number (the coefficient, 1 when absent) times a variable raised to a
    /// signed integer power (1 when absent), such as `2.5y^3`.
    Monomial { coefficient: Option<Span>, variable: Span, exponent: Option<Span> },
    /// Two sub-equations joined by an operator.
    Arithmetic(Operator, Box<Expr>, Box<Expr>),
}

} // verus!
