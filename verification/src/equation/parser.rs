use vstd::prelude::*;

use crate::equation::grammar::{
    after_sign, build_tree, chain_tail, constant, equation, is_blank, is_digit, is_letter,
    is_name_char, is_unicode_whitespace, mantissa_end, monomial, number, op_operand, paren,
    parse_text, signed_digits, skip_blanks, skip_digits, skip_name, skip_while, split_index,
    ParseError, Step,
};
use crate::equation::operator::{operator_of, Operator};
use crate::equation::syntax::{Expr, Span};

verus! {

/// The outcome of an executable parser, read as a [`Step`].
enum Outcome<T> {
    Parsed(usize, T),
    Rejected,
    Aborted,
}

spec fn agrees<T>(o: Outcome<T>, st: Step<T>) -> bool {
    match o {
        Outcome::Parsed(e, v) => st == Step::Parsed(e as int, v),
        Outcome::Rejected => st is Rejected,
        Outcome::Aborted => st is Aborted,
    }
}

spec fn within<T>(o: Outcome<T>, p: int, len: int) -> bool {
    o matches Outcome::Parsed(e, _) ==> p <= e <= len
}

#[derive(Clone, Copy)]
enum CharClass {
    Blank,
    Digit,
    Name,
}

spec fn class_fn(class: CharClass) -> spec_fn(char) -> bool {
    match class {
        CharClass::Blank => |c: char| is_blank(c),
        CharClass::Digit => |c: char| is_digit(c),
        CharClass::Name => |c: char| is_name_char(c),
    }
}

fn is_digit_char(c: char) -> (b: bool)
    ensures
        b == is_digit(c),
{
    '0' <= c && c <= '9'
}

fn is_letter_char(c: char) -> (b: bool)
    ensures
        b == is_letter(c),
{
    ('a' <= c && c <= 'z') || ('A' <= c && c <= 'Z')
}

fn in_class(c: char, class: CharClass) -> (b: bool)
    ensures
        b == (class_fn(class))(c),
{
    match class {
        CharClass::Blank => c == ' ' || c == '\t' || c == '\r' || c == '\n',
        CharClass::Digit => is_digit_char(c),
        CharClass::Name => is_letter_char(c) || is_digit_char(c) || c == '_',
    }
}

fn skip_class(s: &Vec<char>, p: usize, class: CharClass) -> (r: usize)
    requires
        p <= s.len(),
    ensures
        r == skip_while(s@, p as int, class_fn(class)),
        p <= r <= s.len(),
{
    let mut i = p;
    while i < s.len() && in_class(s[i], class)
        invariant
            p <= i <= s.len(),
            skip_while(s@, i as int, class_fn(class)) == skip_while(s@, p as int, class_fn(class)),
        decreases s.len() - i,
    {
        i = i + 1;
    }
    i
}

fn skip_blanks_at(s: &Vec<char>, p: usize) -> (r: usize)
    requires
        p <= s.len(),
    ensures
        r == skip_blanks(s@, p as int),
        p <= r <= s.len(),
{
    let r = skip_class(s, p, CharClass::Blank);
    assert(class_fn(CharClass::Blank) == (|c: char| is_blank(c)));
    r
}

fn skip_digits_at(s: &Vec<char>, p: usize) -> (r: usize)
    requires
        p <= s.len(),
    ensures
        r == skip_digits(s@, p as int),
        p <= r <= s.len(),
{
    let r = skip_class(s, p, CharClass::Digit);
    assert(class_fn(CharClass::Digit) == (|c: char| is_digit(c)));
    r
}

fn skip_name_at(s: &Vec<char>, p: usize) -> (r: usize)
    requires
        p <= s.len(),
    ensures
        r == skip_name(s@, p as int),
        p <= r <= s.len(),
{
    let r = skip_class(s, p, CharClass::Name);
    assert(class_fn(CharClass::Name) == (|c: char| is_name_char(c)));
    r
}

fn after_sign_at(s: &Vec<char>, p: usize) -> (r: usize)
    requires
        p <= s.len(),
    ensures
        r == after_sign(s@, p as int),
        p <= r <= s.len(),
{
    if p < s.len() && (s[p] == '+' || s[p] == '-') {
        p + 1
    } else {
        p
    }
}

fn mantissa_end_at(s: &Vec<char>, p: usize) -> (r: Option<usize>)
    requires
        p <= s.len(),
    ensures
        r matches Some(m) ==> mantissa_end(s@, p as int) == Some(m as int) && p <= m <= s.len(),
        r is None ==> mantissa_end(s@, p as int) is None,
{
    if p < s.len() && is_digit_char(s[p]) {
        let d = skip_digits_at(s, p);
        if d < s.len() && s[d] == '.' {
            Some(skip_digits_at(s, d + 1))
        } else {
            Some(d)
        }
    } else if p < s.len() && p + 1 < s.len() && s[p] == '.' && is_digit_char(s[p + 1]) {
        Some(skip_digits_at(s, p + 1))
    } else {
        None
    }
}

fn number_at(s: &Vec<char>, p: usize) -> (r: Outcome<Span>)
    requires
        p <= s.len(),
    ensures
        agrees(r, number(s@, p as int)),
        within(r, p as int, s.len() as int),
{
    let q = after_sign_at(s, p);
    match mantissa_end_at(s, q) {
        None => Outcome::Rejected,
        Some(m) => {
            if m < s.len() && (s[m] == 'e' || s[m] == 'E') {
                let q2 = after_sign_at(s, m + 1);
                if q2 < s.len() && is_digit_char(s[q2]) {
                    let e = skip_digits_at(s, q2);
                    Outcome::Parsed(e, Span { start: p, end: e })
                } else {
                    Outcome::Aborted
                }
            } else {
                Outcome::Parsed(m, Span { start: p, end: m })
            }
        },
    }
}

fn signed_digits_at(s: &Vec<char>, p: usize) -> (r: Outcome<Span>)
    requires
        p <= s.len(),
    ensures
        agrees(r, signed_digits(s@, p as int)),
        within(r, p as int, s.len() as int),
{
    let q = after_sign_at(s, p);
    if q < s.len() && is_digit_char(s[q]) {
        let e = skip_digits_at(s, q);
        Outcome::Parsed(e, Span { start: p, end: e })
    } else {
        Outcome::Rejected
    }
}

fn monomial_at(s: &Vec<char>, p: usize) -> (r: Outcome<Expr>)
    requires
        p <= s.len(),
    ensures
        agrees(r, monomial(s@, p as int)),
        within(r, p as int, s.len() as int),
{
    let (q, c) = match number_at(s, p) {
        Outcome::Aborted => {
            return Outcome::Aborted;
        },
        Outcome::Parsed(e, sp) => (e, Some(sp)),
        Outcome::Rejected => (p, None),
    };
    let v = skip_blanks_at(s, q);
    if v < s.len() && is_letter_char(s[v]) {
        let ve = skip_name_at(s, v + 1);
        let e = skip_blanks_at(s, ve);
        let (end, exponent) = if e < s.len() && s[e] == '^' {
            match signed_digits_at(s, e + 1) {
                Outcome::Parsed(f, sp) => (f, Some(sp)),
                _ => (e, None),
            }
        } else {
            (e, None)
        };
        Outcome::Parsed(
            end,
            Expr::Monomial { coefficient: c, variable: Span { start: v, end: ve }, exponent },
        )
    } else {
        Outcome::Rejected
    }
}

fn constant_at(s: &Vec<char>, p: usize) -> (r: Outcome<Expr>)
    requires
        p <= s.len(),
    ensures
        agrees(r, constant(s@, p as int)),
        within(r, p as int, s.len() as int),
{
    let q = skip_blanks_at(s, p);
    match number_at(s, q) {
        Outcome::Parsed(e, sp) => Outcome::Parsed(skip_blanks_at(s, e), Expr::Constant(sp)),
        Outcome::Rejected => Outcome::Rejected,
        Outcome::Aborted => Outcome::Aborted,
    }
}

spec fn agrees_chain(o: Outcome<Vec<(Operator, Expr)>>, st: Step<Seq<(Operator, Expr)>>) -> bool {
    match o {
        Outcome::Parsed(e, v) => st == Step::Parsed(e as int, v@),
        Outcome::Rejected => st is Rejected,
        Outcome::Aborted => st is Aborted,
    }
}

fn operator_from_char(c: char) -> (r: Option<Operator>)
    ensures
        r == operator_of(c),
{
    if c == '+' {
        Some(Operator::Add)
    } else if c == '-' {
        Some(Operator::Subtract)
    } else if c == '*' {
        Some(Operator::Multiply)
    } else if c == '/' {
        Some(Operator::Divide)
    } else {
        None
    }
}

/// The split position of a chain is one of its operators.
pub proof fn lemma_split_index_in_range(ops: Seq<(Operator, Expr)>)
    requires
        ops.len() > 0,
    ensures
        0 <= split_index(ops) < ops.len(),
    decreases ops.len(),
{
    if ops.len() > 1 {
        lemma_split_index_in_range(ops.drop_last());
    }
}

fn split_index_of(ops: &Vec<(Operator, Expr)>) -> (k: usize)
    requires
        ops.len() > 0,
    ensures
        k == split_index(ops@),
        k < ops.len(),
{
    let mut k: usize = 0;
    let mut i: usize = 1;
    assert(ops@.take(1).drop_last() =~= ops@.take(0));
    while i < ops.len()
        invariant
            1 <= i <= ops.len(),
            k < i,
            k == split_index(ops@.take(i as int)),
        decreases ops.len() - i,
    {
        assert(ops@.take(i as int + 1).drop_last() =~= ops@.take(i as int));
        if ops[i].0.precedence() <= ops[k].0.precedence() {
            k = i;
        }
        i = i + 1;
    }
    assert(ops@.take(ops.len() as int) =~= ops@);
    k
}

/// Builds the tree of the chain `first` followed by the pairs of `rest`.
pub fn build_tree_of(first: Expr, rest: Vec<(Operator, Expr)>) -> (t: Expr)
    ensures
        t == build_tree(first, rest@),
    decreases rest.len(),
{
    if rest.len() == 0 {
        return first;
    }
    let k = split_index_of(&rest);
    let ghost all = rest@;
    let mut left_rest = rest;
    let mut right_rest = left_rest.split_off(k);
    let (op, right_first) = right_rest.remove(0);
    assert(left_rest@ =~= all.take(k as int));
    assert(right_rest@ =~= all.skip(k as int + 1));
    let left = build_tree_of(first, left_rest);
    let right = build_tree_of(right_first, right_rest);
    Expr::Arithmetic(op, Box::new(left), Box::new(right))
}

fn equation_at(s: &Vec<char>, p: usize) -> (r: Outcome<Expr>)
    requires
        p <= s.len(),
    ensures
        agrees(r, equation(s@, p as int)),
        within(r, p as int, s.len() as int),
    decreases s.len() - p, 3int,
{
    match paren_at(s, p) {
        Outcome::Parsed(e, x) => Outcome::Parsed(e, x),
        Outcome::Aborted => Outcome::Aborted,
        Outcome::Rejected => match monomial_at(s, p) {
            Outcome::Rejected => constant_at(s, p),
            r => r,
        },
    }
}

fn paren_at(s: &Vec<char>, p: usize) -> (r: Outcome<Expr>)
    requires
        p <= s.len(),
    ensures
        agrees(r, paren(s@, p as int)),
        within(r, p as int, s.len() as int),
    decreases s.len() - p, 2int,
{
    let q = skip_blanks_at(s, p);
    if q < s.len() && s[q] == '(' {
        let q2 = skip_blanks_at(s, q + 1);
        match equation_at(s, q2) {
            Outcome::Parsed(e1, first) => match chain_tail_at(s, e1) {
                Outcome::Parsed(e2, rest) => {
                    let r = skip_blanks_at(s, e2);
                    if r < s.len() && s[r] == ')' {
                        let end = skip_blanks_at(s, r + 1);
                        Outcome::Parsed(end, build_tree_of(first, rest))
                    } else {
                        Outcome::Rejected
                    }
                },
                Outcome::Rejected => Outcome::Rejected,
                Outcome::Aborted => Outcome::Aborted,
            },
            Outcome::Rejected => Outcome::Rejected,
            Outcome::Aborted => Outcome::Aborted,
        }
    } else {
        Outcome::Rejected
    }
}

fn op_operand_at(s: &Vec<char>, p: usize) -> (r: Outcome<(Operator, Expr)>)
    requires
        p <= s.len(),
    ensures
        agrees(r, op_operand(s@, p as int)),
        r matches Outcome::Parsed(e, _) ==> p < e <= s.len(),
    decreases s.len() - p, 1int,
{
    let q = skip_blanks_at(s, p);
    if q < s.len() {
        match operator_from_char(s[q]) {
            Some(op) => {
                let q2 = skip_blanks_at(s, q + 1);
                match equation_at(s, q2) {
                    Outcome::Parsed(e, x) => Outcome::Parsed(e, (op, x)),
                    Outcome::Rejected => Outcome::Rejected,
                    Outcome::Aborted => Outcome::Aborted,
                }
            },
            None => Outcome::Rejected,
        }
    } else {
        Outcome::Rejected
    }
}

fn chain_tail_at(s: &Vec<char>, p: usize) -> (r: Outcome<Vec<(Operator, Expr)>>)
    requires
        p <= s.len(),
    ensures
        agrees_chain(r, chain_tail(s@, p as int)),
        r matches Outcome::Parsed(e, _) ==> p <= e <= s.len(),
    decreases s.len() - p, 2int,
{
    match op_operand_at(s, p) {
        Outcome::Rejected => Outcome::Parsed(p, Vec::new()),
        Outcome::Aborted => Outcome::Aborted,
        Outcome::Parsed(e, pair) => match chain_tail_at(s, e) {
            Outcome::Parsed(f, rest) => {
                let mut all = rest;
                all.insert(0, pair);
                assert(all@ =~= seq![pair] + rest@);
                Outcome::Parsed(f, all)
            },
            Outcome::Rejected => Outcome::Rejected,
            Outcome::Aborted => Outcome::Aborted,
        },
    }
}

fn is_unicode_whitespace_char(c: char) -> (b: bool)
    ensures
        b == is_unicode_whitespace(c),
{
    ('\u{9}' <= c && c <= '\u{d}') || c == ' ' || c == '\u{85}' || c == '\u{a0}' || c
        == '\u{1680}' || ('\u{2000}' <= c && c <= '\u{200a}') || c == '\u{2028}' || c
        == '\u{2029}' || c == '\u{202f}' || c == '\u{205f}' || c == '\u{3000}'
}

fn only_whitespace_from(s: &Vec<char>, f: usize) -> (b: bool)
    requires
        f <= s.len(),
    ensures
        b == (forall|i: int| f <= i < s.len() ==> is_unicode_whitespace(#[trigger] s@[i])),
{
    let mut i = f;
    while i < s.len()
        invariant
            f <= i <= s.len(),
            forall|j: int| f <= j < i ==> is_unicode_whitespace(#[trigger] s@[j]),
        decreases s.len() - i,
    {
        if !is_unicode_whitespace_char(s[i]) {
            return false;
        }
        i = i + 1;
    }
    true
}

/// Parses an equation from its characters.
pub fn parse_chars(s: &Vec<char>) -> (r: Result<Expr, ParseError>)
    ensures
        r == parse_text(s@),
{
    match equation_at(s, 0) {
        Outcome::Parsed(e, first) => match chain_tail_at(s, e) {
            Outcome::Parsed(f, rest) => {
                if only_whitespace_from(s, f) {
                    Ok(build_tree_of(first, rest))
                } else {
                    Err(ParseError::Unparsed { remaining: Span { start: f, end: s.len() } })
                }
            },
            _ => Err(ParseError::Syntax),
        },
        _ => Err(ParseError::Syntax),
    }
}

/// The characters of a text, in order.
pub fn chars_of(text: &str) -> (v: Vec<char>)
    ensures
        v@ == text@,
{
    let mut v: Vec<char> = Vec::new();
    for c in it: text.chars()
        invariant
            v@ == it.seq().take(it.index() as int),
            it.seq() == text@,
    {
        v.push(c);
    }
    v
}

/// Parses an equation from its text, such as `2.0 * (x + 1) - y^2`.
///
/// Operands are joined by `+`, `-`, `*` and `/`; `*` and `/` bind stronger
/// than `+` and `-`, and operators of equal strength group from the left.
pub fn parse(input: &str) -> (r: Result<Expr, ParseError>)
    ensures
        r == parse_text(input@),
{
    let s = chars_of(input);
    parse_chars(&s)
}

} // verus!
