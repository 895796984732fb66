use solver::equation::operator::Operator;
use solver::equation::term::{Term, TooFewOperands};

type Equation = Term<f32>;

fn c(v: f32) -> Equation {
    Term::Constant(v)
}

fn m(factor: f32, name: &str, exponent: i32) -> Equation {
    Term::monomial(factor, name, exponent)
}

fn arith(op: Operator, operands: Vec<Equation>) -> Result<Equation, TooFewOperands> {
    Term::arithmetic(op, operands)
}

fn sorted(mut names: Vec<String>) -> Vec<String> {
    names.sort();
    names
}

#[test]
fn test_is_variable_related_returns_false_for_both_constants() -> Result<(), TooFewOperands> {
    let equation = arith(Operator::Add, vec![c(5.0), c(3.0)])?;
    assert_eq!(equation.reads_variable("x"), false);
    Ok(())
}

#[test]
fn test_is_variable_related_returns_true_when_first_operand_has_variable() -> Result<(), TooFewOperands> {
    let equation = arith(Operator::Add, vec![m(2.0, "x", 1), c(3.0)])?;
    assert_eq!(equation.reads_variable("x"), true);
    Ok(())
}

#[test]
fn test_is_variable_related_returns_true_when_second_operand_has_variable() -> Result<(), TooFewOperands> {
    let equation = arith(Operator::Multiply, vec![c(5.0), m(3.0, "y", 1)])?;
    assert_eq!(equation.reads_variable("y"), true);
    Ok(())
}

#[test]
fn test_is_variable_related_returns_true_when_both_operands_have_same_variable(
) -> Result<(), TooFewOperands> {
    let equation = arith(Operator::Add, vec![m(2.0, "x", 1), m(3.0, "x", 2)])?;
    assert_eq!(equation.reads_variable("x"), true);
    Ok(())
}

#[test]
fn test_is_variable_related_returns_true_when_either_operand_has_variable() -> Result<(), TooFewOperands> {
    let equation = arith(Operator::Add, vec![m(2.0, "x", 1), m(3.0, "y", 1)])?;
    assert_eq!(equation.reads_variable("x"), true);
    assert_eq!(equation.reads_variable("y"), true);
    Ok(())
}

#[test]
fn test_is_variable_related_returns_false_when_different_variable() -> Result<(), TooFewOperands> {
    let equation = arith(Operator::Add, vec![m(2.0, "x", 1), m(3.0, "y", 1)])?;
    assert_eq!(equation.reads_variable("z"), false);
    Ok(())
}

#[test]
fn test_is_variable_related_with_nested_equations() -> Result<(), TooFewOperands> {
    let inner = arith(Operator::Add, vec![m(1.0, "x", 1), c(2.0)])?;
    let outer = arith(Operator::Multiply, vec![inner, c(3.0)])?;
    assert_eq!(outer.reads_variable("x"), true);
    assert_eq!(outer.reads_variable("y"), false);
    Ok(())
}

#[test]
fn test_related_variables_returns_empty_for_constants_only() -> Result<(), TooFewOperands> {
    let equation = arith(Operator::Add, vec![c(5.0), c(3.0)])?;
    assert_eq!(equation.variable_names(), Vec::<String>::new());
    Ok(())
}

#[test]
fn test_related_variables_returns_single_variable_from_first_operand() -> Result<(), TooFewOperands> {
    let equation = arith(Operator::Add, vec![m(2.0, "x", 1), c(3.0)])?;
    assert_eq!(sorted(equation.variable_names()), vec!["x".to_string()]);
    Ok(())
}

#[test]
fn test_related_variables_returns_single_variable_from_second_operand() -> Result<(), TooFewOperands> {
    let equation = arith(Operator::Multiply, vec![c(5.0), m(3.0, "y", 1)])?;
    assert_eq!(sorted(equation.variable_names()), vec!["y".to_string()]);
    Ok(())
}

#[test]
fn test_related_variables_returns_multiple_unique_variables() -> Result<(), TooFewOperands> {
    let equation = arith(Operator::Add, vec![m(2.0, "x", 1), m(3.0, "y", 1)])?;
    assert_eq!(sorted(equation.variable_names()), vec!["x".to_string(), "y".to_string()]);
    Ok(())
}

#[test]
fn test_related_variables_deduplicates_same_variable() -> Result<(), TooFewOperands> {
    let equation = arith(Operator::Add, vec![m(2.0, "x", 1), m(3.0, "x", 2)])?;
    assert_eq!(sorted(equation.variable_names()), vec!["x".to_string()]);
    Ok(())
}

#[test]
fn test_related_variables_with_nested_equations() -> Result<(), TooFewOperands> {
    let inner = arith(Operator::Add, vec![m(1.0, "x", 1), m(1.0, "y", 1)])?;
    let outer = arith(Operator::Multiply, vec![inner, m(1.0, "z", 1)])?;
    assert_eq!(
        sorted(outer.variable_names()),
        vec!["x".to_string(), "y".to_string(), "z".to_string()]
    );
    Ok(())
}

#[test]
fn test_related_variables_with_nested_equations_and_duplicates() -> Result<(), TooFewOperands> {
    let left = arith(Operator::Add, vec![m(1.0, "x", 1), c(2.0)])?;
    let right = arith(Operator::Add, vec![m(1.0, "x", 1), c(3.0)])?;
    let outer = arith(Operator::Multiply, vec![left, right])?;
    assert_eq!(sorted(outer.variable_names()), vec!["x".to_string()]);
    Ok(())
}
