use std::cmp::Ordering;

use vstd::prelude::*;
use vstd::std_specs::cmp::PartialOrdSpecImpl;

verus! {

/// An arithmetic operator of an equation.
#[derive(Debug, Clone, Copy, PartialEq, Eq, Structural)]
pub enum Operator {
    Add,
    Subtract,
    Multiply,
    Divide,
}

/// The binding strength of an operator: additive operators bind weaker (0)
/// than multiplicative ones (1).
pub open spec fn precedence(op: Operator) -> int {
    match op {
        Operator::Add | Operator::Subtract => 0,
        Operator::Multiply | Operator::Divide => 1,
    }
}

impl Operator {
    /// The binding strength of this operator; see [`precedence`].
    pub fn precedence(&self) -> (p: u8)
        ensures
            p == precedence(*self),
    {
        match self {
            Operator::Add | Operator::Subtract => 0,
            Operator::Multiply | Operator::Divide => 1,
        }
    }

    /// The symbol of this operator in an equation's text.
    pub fn symbol(&self) -> (c: char)
        ensures
            c == operator_symbol(*self),
    {
        match self {
            Operator::Add => '+',
            Operator::Subtract => '-',
            Operator::Multiply => '*',
            Operator::Divide => '/',
        }
    }
}

/// The character that stands for an operator in an equation's text.
pub open spec fn operator_symbol(op: Operator) -> char {
    match op {
        Operator::Add => '+',
        Operator::Subtract => '-',
        Operator::Multiply => '*',
        Operator::Divide => '/',
    }
}

/// The operator that a character stands for, if any.
pub open spec fn operator_of(c: char) -> Option<Operator> {
    if c == '+' {
        Some(Operator::Add)
    } else if c == '-' {
        Some(Operator::Subtract)
    } else if c == '*' {
        Some(Operator::Multiply)
    } else if c == '/' {
        Some(Operator::Divide)
    } else {
        None
    }
}

/// Reading an operator's symbol gives the operator back.
pub proof fn law_symbol_reads_back(op: Operator)
    ensures
        operator_of(operator_symbol(op)) == Some(op),
{
}

/// Operators compare by how strongly they bind: `+` and `-` are equal, and
/// less than `*` and `/`, which are equal.
pub open spec fn compare_operators(a: Operator, b: Operator) -> Ordering {
    if precedence(a) < precedence(b) {
        Ordering::Less
    } else if precedence(a) == precedence(b) {
        Ordering::Equal
    } else {
        Ordering::Greater
    }
}

/// Operators are totally ordered by binding strength: two operators compare
/// equal exactly when they bind equally strongly, swapping them reverses the
/// comparison, and the order is transitive.
pub proof fn law_operator_order(a: Operator, b: Operator, c: Operator)
    ensures
        compare_operators(a, a) == Ordering::Equal,
        (compare_operators(a, b) == Ordering::Equal) == (precedence(a) == precedence(b)),
        (compare_operators(a, b) == Ordering::Less) == (compare_operators(b, a)
            == Ordering::Greater),
        compare_operators(a, b) != Ordering::Greater && compare_operators(b, c)
            != Ordering::Greater ==> compare_operators(a, c) != Ordering::Greater,
        compare_operators(a, b) == Ordering::Less && compare_operators(b, c) != Ordering::Greater
            ==> compare_operators(a, c) == Ordering::Less,
{
}

impl PartialOrd for Operator {
    fn partial_cmp(&self, other: &Self) -> (r: Option<Ordering>) {
        let a = self.precedence();
        let b = other.precedence();
        if a < b {
            Some(Ordering::Less)
        } else if a == b {
            Some(Ordering::Equal)
        } else {
            Some(Ordering::Greater)
        }
    }
}

impl PartialOrdSpecImpl for Operator {
    open spec fn obeys_partial_cmp_spec() -> bool {
        true
    }

    open spec fn partial_cmp_spec(&self, other: &Self) -> Option<Ordering> {
        Some(compare_operators(*self, *other))
    }
}

/// Compares two operators by how strongly they bind, as `partial_cmp` does;
/// a total order for sorting operators and taking the larger or smaller one.
pub fn compare_by_precedence(a: &Operator, b: &Operator) -> (r: Ordering)
    ensures
        r == compare_operators(*a, *b),
{
    a.precedence().cmp(&b.precedence())
}

} // verus!
