use vstd::prelude::*;

use crate::equation::grammar::{
    build_tree, chain_tail, equation, monomial, number, op_operand, paren, parse_text,
    signed_digits, skip_blanks, skip_digits, skip_name, skip_while, split_index, ParseError, Step,
};
use crate::equation::operator::Operator;
use crate::equation::syntax::{Expr, Span};

verus! {

/// `skip_while` stops at the first position from `p` whose character does not
/// satisfy `f`.
proof fn lemma_skip_to(s: Seq<char>, p: int, f: spec_fn(char) -> bool, e: int)
    requires
        0 <= p <= e <= s.len(),
        forall|i: int| p <= i < e ==> f(#[trigger] s[i]),
        e == s.len() || !f(s[e]),
    ensures
        skip_while(s, p, f) == e,
    decreases e - p,
{
    if p < e {
        lemma_skip_to(s, p + 1, f, e);
    }
}

/// Whether `c` is an ASCII letter.
pub open spec fn letter(c: char) -> bool {
    ('a' <= c && c <= 'z') || ('A' <= c && c <= 'Z')
}

/// Whether `c` may continue a variable name: an ASCII letter, an ASCII decimal
/// digit or an underscore.
pub open spec fn name_continues(c: char) -> bool {
    letter(c) || ('0' <= c && c <= '9') || c == '_'
}

/// Whether `c` is a space, a tab, a carriage return or a line feed.
pub open spec fn blank(c: char) -> bool {
    c == ' ' || c == '\t' || c == '\r' || c == '\n'
}

/// A variable name is a letter followed by any letters, decimal digits and
/// underscores: a text made only of such a name parses as that variable alone,
/// with no coefficient or exponent, named by the whole text.
pub proof fn law_name_is_a_variable(s: Seq<char>)
    requires
        s.len() > 0,
        s.len() <= usize::MAX,
        letter(s[0]),
        forall|i: int| 1 <= i < s.len() ==> name_continues(#[trigger] s[i]),
    ensures
        parse_text(s) == Ok::<Expr, ParseError>(
            Expr::Monomial { coefficient: None, variable: Span { start: 0, end: s.len() as usize }, exponent: None },
        ),
{
    let n = s.len() as int;
    lemma_skip_to(s, 0, |c: char| crate::equation::grammar::is_blank(c), 0);
    lemma_skip_to(s, 1, |c: char| crate::equation::grammar::is_name_char(c), n);
    lemma_skip_to(s, n, |c: char| crate::equation::grammar::is_blank(c), n);
    assert(paren(s, 0) is Rejected);
    assert(number(s, 0) is Rejected);
    assert(monomial(s, 0) == Step::Parsed(n, Expr::Monomial { coefficient: None, variable: Span { start: 0, end: s.len() as usize }, exponent: None }));
    assert(equation(s, 0) == Step::Parsed(n, Expr::Monomial { coefficient: None, variable: Span { start: 0, end: s.len() as usize }, exponent: None }));
    assert(op_operand(s, n) is Rejected);
    assert(chain_tail(s, n) == Step::Parsed(n, Seq::<(Operator, Expr)>::empty()));
}

/// The operator written with the symbol `c`.
pub open spec fn written_operator(c: char) -> Option<Operator> {
    if c == '+' {
        Some(Operator::Add)
    } else if c == '-' {
        Some(Operator::Subtract)
    } else if c == '*' {
        Some(Operator::Multiply)
    } else if c == '/' {
        Some(Operator::Divide)
    } else {
        None
    }
}

/// Blanks around an operator do not matter, even after an exponent: a text
/// made of a variable name raised to a power (`x^2`), any blanks, an operator,
/// any blanks and a second variable name parses as that operator applied to the
/// two monomials, whatever the number of blanks on either side of the operator.
/// The text lies at positions `0..a` (first name), `a` (`^`), `a + 1..b`
/// (exponent digits), `b..c` (blanks), `c` (operator), `c + 1..d` (blanks) and
/// `d..` (second name).
pub proof fn law_blanks_around_operator(s: Seq<char>, a: int, b: int, c: int, d: int)
    requires
        s.len() <= usize::MAX,
        0 < a,
        a + 1 < b,
        b <= c,
        c < d,
        d < s.len(),
        letter(s[0]),
        forall|i: int| 1 <= i < a ==> name_continues(#[trigger] s[i]),
        s[a] == '^',
        forall|i: int| a + 1 <= i < b ==> '0' <= #[trigger] s[i] && s[i] <= '9',
        forall|i: int| b <= i < c ==> blank(#[trigger] s[i]),
        written_operator(s[c]) is Some,
        forall|i: int| c + 1 <= i < d ==> blank(#[trigger] s[i]),
        letter(s[d]),
        forall|i: int| d + 1 <= i < s.len() ==> name_continues(#[trigger] s[i]),
    ensures
        parse_text(s) == Ok::<Expr, ParseError>(
            Expr::Arithmetic(
                written_operator(s[c])->0,
                Box::new(
                    Expr::Monomial {
                        coefficient: None,
                        variable: Span { start: 0, end: a as usize },
                        exponent: Some(Span { start: (a + 1) as usize, end: b as usize }),
                    },
                ),
                Box::new(
                    Expr::Monomial {
                        coefficient: None,
                        variable: Span { start: d as usize, end: s.len() as usize },
                        exponent: None,
                    },
                ),
            ),
        ),
{
    let n = s.len() as int;
    let blank_f = |ch: char| crate::equation::grammar::is_blank(ch);
    let name_f = |ch: char| crate::equation::grammar::is_name_char(ch);
    let digit_f = |ch: char| crate::equation::grammar::is_digit(ch);
    lemma_skip_to(s, 0, blank_f, 0);
    lemma_skip_to(s, 1, name_f, a);
    lemma_skip_to(s, a, blank_f, a);
    lemma_skip_to(s, a + 1, digit_f, b);
    lemma_skip_to(s, b, blank_f, c);
    lemma_skip_to(s, c + 1, blank_f, d);
    lemma_skip_to(s, d, blank_f, d);
    lemma_skip_to(s, d + 1, name_f, n);
    lemma_skip_to(s, n, blank_f, n);
    let first = Expr::Monomial {
        coefficient: None,
        variable: Span { start: 0, end: a as usize },
        exponent: Some(Span { start: (a + 1) as usize, end: b as usize }),
    };
    let second = Expr::Monomial {
        coefficient: None,
        variable: Span { start: d as usize, end: s.len() as usize },
        exponent: None,
    };
    let op = written_operator(s[c])->0;
    assert(paren(s, 0) is Rejected);
    assert(number(s, 0) is Rejected);
    assert(signed_digits(s, a + 1) == Step::Parsed(b, Span { start: (a + 1) as usize, end: b as usize }));
    assert(monomial(s, 0) == Step::Parsed(b, first));
    assert(equation(s, 0) == Step::Parsed(b, first));
    assert(paren(s, d) is Rejected);
    assert(number(s, d) is Rejected);
    assert(monomial(s, d) == Step::Parsed(n, second));
    assert(equation(s, d) == Step::Parsed(n, second));
    assert(crate::equation::operator::operator_of(s[c]) == Some(op));
    assert(op_operand(s, b) == Step::Parsed(n, (op, second)));
    assert(op_operand(s, n) is Rejected);
    assert(chain_tail(s, n) == Step::Parsed(n, Seq::<(Operator, Expr)>::empty()));
    let rest = seq![(op, second)];
    assert(seq![(op, second)] + Seq::<(Operator, Expr)>::empty() =~= rest);
    assert(chain_tail(s, b) == Step::Parsed(n, rest));
    assert(split_index(rest) == 0);
    assert(rest.take(0) =~= Seq::<(Operator, Expr)>::empty());
    assert(rest.skip(1) =~= Seq::<(Operator, Expr)>::empty());
    assert(build_tree(first, rest.take(0)) == first);
    assert(build_tree(second, rest.skip(1)) == second);
    assert(build_tree(first, rest) == Expr::Arithmetic(op, Box::new(first), Box::new(second)));
}

} // verus!
