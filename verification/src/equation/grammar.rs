use vstd::prelude::*;

use crate::equation::operator::{operator_of, precedence, Operator};
use crate::equation::syntax::{Expr, Span};

verus! {

/// The outcome of running a parser of the grammar at some position: it
/// succeeds with the position after what it read and a value, it backs off
/// (an alternative may still be tried), or it aborts (no alternative is tried).
pub enum Step<T> {
    Parsed(int, T),
    Rejected,
    Aborted,
}

/// Blank characters between the tokens of an equation.
pub open spec fn is_blank(c: char) -> bool {
    c == ' ' || c == '\t' || c == '\r' || c == '\n'
}

/// An ASCII decimal digit.
pub open spec fn is_digit(c: char) -> bool {
    '0' <= c && c <= '9'
}

/// An ASCII letter.
pub open spec fn is_letter(c: char) -> bool {
    ('a' <= c && c <= 'z') || ('A' <= c && c <= 'Z')
}

/// A character that may continue a variable name.
pub open spec fn is_name_char(c: char) -> bool {
    is_letter(c) || is_digit(c) || c == '_'
}

/// A character with the Unicode `White_Space` property.
pub open spec fn is_unicode_whitespace(c: char) -> bool {
    ('\u{9}' <= c && c <= '\u{d}') || c == ' ' || c == '\u{85}' || c == '\u{a0}' || c
        == '\u{1680}' || ('\u{2000}' <= c && c <= '\u{200a}') || c == '\u{2028}' || c
        == '\u{2029}' || c == '\u{202f}' || c == '\u{205f}' || c == '\u{3000}'
}

/// The first position at or after `p` whose character does not satisfy `f`
/// (the end of `s` when there is none).
pub open spec fn skip_while(s: Seq<char>, p: int, f: spec_fn(char) -> bool) -> int
    decreases s.len() - p,
{
    if p < s.len() && f(s[p]) {
        skip_while(s, p + 1, f)
    } else {
        p
    }
}

/// The position after the blanks that start at `p`.
pub open spec fn skip_blanks(s: Seq<char>, p: int) -> int {
    skip_while(s, p, |c: char| is_blank(c))
}

/// The position after the digits that start at `p`.
pub open spec fn skip_digits(s: Seq<char>, p: int) -> int {
    skip_while(s, p, |c: char| is_digit(c))
}

/// The position after the name characters that start at `p`.
pub open spec fn skip_name(s: Seq<char>, p: int) -> int {
    skip_while(s, p, |c: char| is_name_char(c))
}

/// `skip_while` stops no earlier than where it starts and no later than the end.
pub proof fn lemma_skip_while_bounds(s: Seq<char>, p: int, f: spec_fn(char) -> bool)
    ensures
        p <= skip_while(s, p, f),
        p <= s.len() ==> skip_while(s, p, f) <= s.len(),
        forall|i: int| p <= i < skip_while(s, p, f) ==> f(#[trigger] s[i]),
        skip_while(s, p, f) < s.len() && 0 <= p ==> !f(s[skip_while(s, p, f)]),
    decreases s.len() - p,
{
    if p < s.len() && f(s[p]) {
        lemma_skip_while_bounds(s, p + 1, f);
    }
}

/// The span `p..e`.
pub open spec fn span(p: int, e: int) -> Span {
    Span { start: p as usize, end: e as usize }
}

/// The position after an optional `+` or `-` sign at `p`.
pub open spec fn after_sign(s: Seq<char>, p: int) -> int {
    if 0 <= p < s.len() && (s[p] == '+' || s[p] == '-') {
        p + 1
    } else {
        p
    }
}

/// The end of the digits-and-point part of a number that starts at `p`: digits
/// optionally followed by a point and more digits, or a point followed by at
/// least one digit.
pub open spec fn mantissa_end(s: Seq<char>, p: int) -> Option<int> {
    if 0 <= p < s.len() && is_digit(s[p]) {
        let d = skip_digits(s, p);
        if d < s.len() && s[d] == '.' {
            Some(skip_digits(s, d + 1))
        } else {
            Some(d)
        }
    } else if 0 <= p && p + 1 < s.len() && s[p] == '.' && is_digit(s[p + 1]) {
        Some(skip_digits(s, p + 1))
    } else {
        None
    }
}

/// A decimal number such as `-5.0`, `.5`, `3.` or `1e-3`: an optional sign, a
/// mantissa and an optional exponent. A letter `e` or `E` right after the
/// mantissa commits the number to an exponent: when no digits follow it
/// (after an optional sign) the whole parse aborts.
pub open spec fn number(s: Seq<char>, p: int) -> Step<Span> {
    match mantissa_end(s, after_sign(s, p)) {
        None => Step::Rejected,
        Some(m) => if m < s.len() && (s[m] == 'e' || s[m] == 'E') {
            let q = after_sign(s, m + 1);
            if q < s.len() && is_digit(s[q]) {
                Step::Parsed(skip_digits(s, q), span(p, skip_digits(s, q)))
            } else {
                Step::Aborted
            }
        } else {
            Step::Parsed(m, span(p, m))
        },
    }
}

/// An integer with an optional sign, such as `-2`.
pub open spec fn signed_digits(s: Seq<char>, p: int) -> Step<Span> {
    let q = after_sign(s, p);
    if 0 <= q < s.len() && is_digit(s[q]) {
        Step::Parsed(skip_digits(s, q), span(p, skip_digits(s, q)))
    } else {
        Step::Rejected
    }
}

/// A monomial such as `2.5 y^3`: an optional coefficient, blanks, a variable
/// name (a letter followed by letters, digits or `_`), blanks, and optionally
/// `^` directly followed by a signed integer.
pub open spec fn monomial(s: Seq<char>, p: int) -> Step<Expr> {
    let coefficient = number(s, p);
    if coefficient is Aborted {
        Step::Aborted
    } else {
        let (q, c) = match coefficient {
            Step::Parsed(e, sp) => (e, Some(sp)),
            _ => (p, None),
        };
        let v = skip_blanks(s, q);
        if 0 <= v < s.len() && is_letter(s[v]) {
            let ve = skip_name(s, v + 1);
            let e = skip_blanks(s, ve);
            let (end, exponent) = if e < s.len() && s[e] == '^' {
                match signed_digits(s, e + 1) {
                    Step::Parsed(f, sp) => (f, Some(sp)),
                    _ => (e, None),
                }
            } else {
                (e, None)
            };
            Step::Parsed(end, Expr::Monomial { coefficient: c, variable: span(v, ve), exponent })
        } else {
            Step::Rejected
        }
    }
}

/// A number standing alone, with the blanks around it.
pub open spec fn constant(s: Seq<char>, p: int) -> Step<Expr> {
    match number(s, skip_blanks(s, p)) {
        Step::Parsed(e, sp) => Step::Parsed(skip_blanks(s, e), Expr::Constant(sp)),
        Step::Rejected => Step::Rejected,
        Step::Aborted => Step::Aborted,
    }
}

/// The position in `ops` at which a chain of operands joined by `ops` is split
/// into two sub-equations: that of the weakest-binding operator, the last one
/// among equally weak ones.
pub open spec fn split_index(ops: Seq<(Operator, Expr)>) -> int
    decreases ops.len(),
{
    if ops.len() <= 1 {
        0
    } else {
        let k = split_index(ops.drop_last());
        if precedence(ops.last().0) <= precedence(ops[k].0) {
            ops.len() - 1
        } else {
            k
        }
    }
}

/// The tree of the chain `first op_1 x_1 op_2 x_2 ...` with `rest` the pairs
/// `(op_i, x_i)`: split at the weakest-binding operator (the last among equals)
/// and built from the two sides.
pub open spec fn build_tree(first: Expr, rest: Seq<(Operator, Expr)>) -> Expr
    decreases rest.len(),
{
    if rest.len() == 0 {
        first
    } else {
        let k = split_index(rest);
        if 0 <= k < rest.len() {
            Expr::Arithmetic(
                rest[k].0,
                Box::new(build_tree(first, rest.take(k))),
                Box::new(build_tree(rest[k].1, rest.skip(k + 1))),
            )
        } else {
            first
        }
    }
}

/// An equation: a parenthesised chain, a monomial or a constant, tried in this
/// order.
pub open spec fn equation(s: Seq<char>, p: int) -> Step<Expr>
    decreases s.len() - p, 3int,
{
    match paren(s, p) {
        Step::Parsed(e, x) => Step::Parsed(e, x),
        Step::Aborted => Step::Aborted,
        Step::Rejected => match monomial(s, p) {
            Step::Rejected => constant(s, p),
            r => r,
        },
    }
}

/// A chain of equations joined by operators, between `(` and `)`, with the
/// blanks around each parenthesis.
pub open spec fn paren(s: Seq<char>, p: int) -> Step<Expr>
    decreases s.len() - p, 2int,
{
    let q = skip_blanks(s, p);
    if 0 <= q < s.len() && s[q] == '(' {
        let q2 = skip_blanks(s, q + 1);
        proof {
            lemma_skip_while_bounds(s, p, |c: char| is_blank(c));
            lemma_skip_while_bounds(s, q + 1, |c: char| is_blank(c));
        }
        match equation(s, q2) {
            Step::Parsed(e1, first) => if q2 <= e1 <= s.len() {
                match chain_tail(s, e1) {
                    Step::Parsed(e2, rest) => {
                        let r = skip_blanks(s, e2);
                        if 0 <= r < s.len() && s[r] == ')' {
                            Step::Parsed(skip_blanks(s, r + 1), build_tree(first, rest))
                        } else {
                            Step::Rejected
                        }
                    },
                    Step::Rejected => Step::Rejected,
                    Step::Aborted => Step::Aborted,
                }
            } else {
                Step::Rejected
            },
            Step::Rejected => Step::Rejected,
            Step::Aborted => Step::Aborted,
        }
    } else {
        Step::Rejected
    }
}

/// An operator (with the blanks around it) followed by an equation.
pub open spec fn op_operand(s: Seq<char>, p: int) -> Step<(Operator, Expr)>
    decreases s.len() - p, 1int,
{
    let q = skip_blanks(s, p);
    if 0 <= q < s.len() && operator_of(s[q]) is Some {
        let q2 = skip_blanks(s, q + 1);
        proof {
            lemma_skip_while_bounds(s, p, |c: char| is_blank(c));
            lemma_skip_while_bounds(s, q + 1, |c: char| is_blank(c));
        }
        match equation(s, q2) {
            Step::Parsed(e, x) => Step::Parsed(e, (operator_of(s[q])->0, x)),
            Step::Rejected => Step::Rejected,
            Step::Aborted => Step::Aborted,
        }
    } else {
        Step::Rejected
    }
}

/// As many operator-and-equation pairs as follow, possibly none. Each pair
/// reads at least one character, so the repetition ends.
pub open spec fn chain_tail(s: Seq<char>, p: int) -> Step<Seq<(Operator, Expr)>>
    decreases s.len() - p, 2int,
{
    match op_operand(s, p) {
        Step::Rejected => Step::Parsed(p, Seq::empty()),
        Step::Aborted => Step::Aborted,
        Step::Parsed(e, pair) => if p < e <= s.len() {
            match chain_tail(s, e) {
                Step::Parsed(f, rest) => Step::Parsed(f, seq![pair] + rest),
                Step::Rejected => Step::Rejected,
                Step::Aborted => Step::Aborted,
            }
        } else {
            Step::Rejected
        },
    }
}

/// Why an equation's text was not accepted.
#[derive(Debug, Clone, Copy, PartialEq, Eq, Structural)]
pub enum ParseError {
    /// The text does not start with an equation.
    Syntax,
    /// An equation was read, but text other than whitespace follows it.
    Unparsed { remaining: Span },
}

/// The result of parsing a whole text: a chain of equations joined by
/// operators, which only whitespace may follow.
pub open spec fn parse_text(s: Seq<char>) -> Result<Expr, ParseError> {
    match equation(s, 0) {
        Step::Parsed(e, first) => match chain_tail(s, e) {
            Step::Parsed(f, rest) => if forall|i: int|
                f <= i < s.len() ==> is_unicode_whitespace(#[trigger] s[i]) {
                Ok(build_tree(first, rest))
            } else {
                Err(ParseError::Unparsed { remaining: span(f, s.len() as int) })
            },
            _ => Err(ParseError::Syntax),
        },
        _ => Err(ParseError::Syntax),
    }
}

} // verus!
