use solver::equation::operator::{compare_by_precedence, Operator};
use std::cmp::Ordering;

const ALL: [Operator; 4] = [
    Operator::Add,
    Operator::Subtract,
    Operator::Multiply,
    Operator::Divide,
];

#[test]
fn test_ord_is_consistent_with_partial_ord() {
    for op1 in &ALL {
        for op2 in &ALL {
            let ord_result = compare_by_precedence(op1, op2);
            let partial_ord_result = op1.partial_cmp(op2);
            assert_eq!(Some(ord_result), partial_ord_result);
        }
    }
}

#[test]
fn test_operators_can_be_sorted_by_precedence() {
    let mut operators = vec![
        Operator::Add,
        Operator::Divide,
        Operator::Subtract,
        Operator::Multiply,
    ];

    operators.sort_by(compare_by_precedence);

    assert!(operators[0] == Operator::Add || operators[0] == Operator::Subtract);
    assert!(operators[1] == Operator::Add || operators[1] == Operator::Subtract);
    assert!(operators[2] == Operator::Multiply || operators[2] == Operator::Divide);
    assert!(operators[3] == Operator::Multiply || operators[3] == Operator::Divide);
    assert_ne!(operators[0], operators[2]);
    assert_ne!(operators[1], operators[3]);
}

#[test]
fn test_max_returns_higher_precedence_operator() {
    let result1 = std::cmp::max_by(Operator::Add, Operator::Multiply, compare_by_precedence);
    let result2 = std::cmp::max_by(Operator::Divide, Operator::Subtract, compare_by_precedence);

    assert_eq!(result1, Operator::Multiply);
    assert_eq!(result2, Operator::Divide);
}

#[test]
fn test_min_returns_lower_precedence_operator() {
    let result1 = std::cmp::min_by(Operator::Add, Operator::Multiply, compare_by_precedence);
    let result2 = std::cmp::min_by(Operator::Divide, Operator::Subtract, compare_by_precedence);

    assert_eq!(result1, Operator::Add);
    assert_eq!(result2, Operator::Subtract);
}

#[test]
fn operators_of_equal_precedence_compare_equal() {
    let pairs = [
        (Operator::Add, Operator::Add),
        (Operator::Add, Operator::Subtract),
        (Operator::Subtract, Operator::Add),
        (Operator::Subtract, Operator::Subtract),
        (Operator::Multiply, Operator::Multiply),
        (Operator::Multiply, Operator::Divide),
        (Operator::Divide, Operator::Multiply),
        (Operator::Divide, Operator::Divide),
    ];
    for (a, b) in pairs {
        assert_eq!(a.partial_cmp(&b), Some(Ordering::Equal));
    }
}

#[test]
fn multiplicative_operators_compare_greater_than_additive_ones() {
    for high in [Operator::Multiply, Operator::Divide] {
        for low in [Operator::Add, Operator::Subtract] {
            assert_eq!(high.partial_cmp(&low), Some(Ordering::Greater));
            assert_eq!(low.partial_cmp(&high), Some(Ordering::Less));
            assert!(low < high);
        }
    }
}

#[test]
fn precedence_and_symbol_of_each_operator() {
    assert_eq!(Operator::Add.precedence(), 0);
    assert_eq!(Operator::Subtract.precedence(), 0);
    assert_eq!(Operator::Multiply.precedence(), 1);
    assert_eq!(Operator::Divide.precedence(), 1);
    let symbols: Vec<char> = ALL.iter().map(|o| o.symbol()).collect();
    assert_eq!(symbols, vec!['+', '-', '*', '/']);
}
