use solver::matrix::size::Size;
use solver::solver::{
    dimension_status, DefaultEquationIdGenerator, DimensionSpecificationStatus, EquationId,
    EquationIdGenerator,
};
use solver::vector::{transposed_position, transposed_size, TransposeMethod};

#[test]
fn dimension_status_is_correct_only_for_equal_positive_counts() {
    assert_eq!(dimension_status(2, 2), DimensionSpecificationStatus::Correct);
    assert_eq!(dimension_status(1, 1), DimensionSpecificationStatus::Correct);
    assert_eq!(dimension_status(0, 0), DimensionSpecificationStatus::Incorrect);
    assert_eq!(dimension_status(2, 3), DimensionSpecificationStatus::Incorrect);
    assert_eq!(dimension_status(3, 2), DimensionSpecificationStatus::Incorrect);
}

#[test]
fn default_generator_hands_out_increasing_ids() {
    let mut generator = DefaultEquationIdGenerator::default();
    let first = generator.generate();
    let second = generator.generate();
    let third = generator.generate();
    assert_eq!(u64::from(first), 1);
    assert_eq!(u64::from(second), 2);
    assert_eq!(u64::from(third), 3);
    assert!(first < second && second < third);
}

#[test]
fn equation_ids_convert_both_ways() {
    let id = EquationId::from(42);
    assert_eq!(u64::from(id), 42);
    assert_eq!(id, EquationId::from(42));
    assert_ne!(id, EquationId::from(43));
}

#[test]
fn vectors_become_a_column_or_a_row() {
    assert_eq!(transposed_size(TransposeMethod::Column, 3), Size::new(3, 1));
    assert_eq!(transposed_size(TransposeMethod::Row, 3), Size::new(1, 3));
    assert_eq!(transposed_position(TransposeMethod::Column, 2), (2, 0));
    assert_eq!(transposed_position(TransposeMethod::Row, 2), (0, 2));
}

use solver::equation::variable::VariableEquation;

#[test]
fn test_new_creates_variable_equation_with_given_name() {
    let equation = VariableEquation::new("x");
    assert_eq!(equation.name(), "x");
}

#[test]
fn test_new_creates_variable_equation_with_long_name() {
    let equation = VariableEquation::new("variable_name");
    assert_eq!(equation.name(), "variable_name");
}

use solver::solver::EquationTable;

#[test]
fn equation_table_keeps_one_equation_per_id_in_id_order() {
    let mut table: EquationTable<&str> = EquationTable::new();
    assert_eq!(table.len(), 0);
    assert_eq!(table.insert(EquationId::from(5), "five"), None);
    assert_eq!(table.insert(EquationId::from(2), "two"), None);
    assert_eq!(table.insert(EquationId::from(9), "nine"), None);
    assert_eq!(table.len(), 3);
    let ids: Vec<u64> = (0..table.len()).map(|i| u64::from(table.id_at(i))).collect();
    assert_eq!(ids, vec![2, 5, 9]);
    let equations: Vec<&str> = (0..table.len()).map(|i| *table.equation_at(i)).collect();
    assert_eq!(equations, vec!["two", "five", "nine"]);

    assert_eq!(table.insert(EquationId::from(5), "FIVE"), Some("five"));
    assert_eq!(table.len(), 3);
    assert_eq!(*table.equation_at(1), "FIVE");

    assert_eq!(table.remove(EquationId::from(5)), Some("FIVE"));
    assert_eq!(table.remove(EquationId::from(5)), None);
    assert_eq!(table.remove(EquationId::from(7)), None);
    assert_eq!(table.len(), 2);
    let ids: Vec<u64> = (0..table.len()).map(|i| u64::from(table.id_at(i))).collect();
    assert_eq!(ids, vec![2, 9]);
}

use solver::vector::to_matrix;

#[test]
fn values_become_a_column_or_a_row_matrix() {
    let column = to_matrix(&[1.5_f32, 2.5, 3.5], TransposeMethod::Column);
    assert_eq!(column.size(), Size::new(3, 1));
    assert_eq!(column.get(0, 0).unwrap(), Some(&1.5));
    assert_eq!(column.get(2, 0).unwrap(), Some(&3.5));
    assert!(column.get(0, 1).is_err());

    let row = to_matrix(&["a", "b"], TransposeMethod::Row);
    assert_eq!(row.size(), Size::new(1, 2));
    assert_eq!(row.get(0, 1).unwrap(), Some(&"b"));
    assert!(row.get(1, 0).is_err());
}

#[test]
fn default_generator_hands_out_k_as_kth_id() {
    let mut generator = DefaultEquationIdGenerator::default();
    for k in 1..=20u64 {
        assert!(generator.has_next());
        assert_eq!(u64::from(generator.generate()), k);
    }
}

use solver::environment::{variable_name, Environment, MissingVariable};

#[test]
fn variable_names_are_trimmed_and_never_blank() {
    assert_eq!(variable_name("  x "), Some("x".to_string()));
    assert_eq!(variable_name("a b"), Some("a b".to_string()));
    assert_eq!(variable_name("\u{3000}y\t"), Some("y".to_string()));
    assert_eq!(variable_name(""), None);
    assert_eq!(variable_name(" \n\t "), None);
}

#[test]
fn environment_keeps_one_value_per_name() {
    let mut env: Environment<u32> = Environment::empty();
    assert_eq!(env.len(), 0);
    assert_eq!(env.add("x".to_string(), 1), None);
    assert_eq!(env.add("y".to_string(), 2), None);
    assert_eq!(env.add("x".to_string(), 3), Some(1));
    assert_eq!(env.len(), 2);
    assert_eq!(env.get("x"), Some(&3));
    assert_eq!(env.get("z"), None);
    assert_eq!(env.update("y", 5), Ok(()));
    assert_eq!(env.get("y"), Some(&5));
    assert_eq!(env.update("z", 7), Err(MissingVariable { name: "z".to_string() }));
    assert_eq!(env.len(), 2);
    assert_eq!(env.remove("x"), Some(3));
    assert_eq!(env.remove("x"), None);
    assert_eq!(env.len(), 1);
    assert_eq!(env.name_at(0), "y");
    assert_eq!(*env.value_at(0), 5);
}
