use solver::matrix::error::MatrixError;
use solver::matrix::simple::SimpleMatrix;
use solver::matrix::size::Size;
use solver::matrix::Matrix;

#[test]
fn test_new_creates_matrix_with_correct_size() -> Result<(), MatrixError> {
    let rows = 3;
    let cols = 4;
    let matrix = SimpleMatrix::<i32>::new(rows, cols)?;
    assert_eq!(matrix.size(), Size::new(rows, cols));
    assert_eq!(matrix.size().rows(), rows);
    assert_eq!(matrix.size().columns(), cols);
    Ok(())
}

fn assert_new_fails(row: usize, col: usize, description: &str) {
    let result = SimpleMatrix::<i32>::new(row, col);
    assert!(result.is_err(), "Expected error for {}, but got Ok", description);
    assert_eq!(result.unwrap_err(), MatrixError::ZeroDimension);
}

#[test]
fn test_new_returns_error_for_invalid_dimensions_zero_row() {
    assert_new_fails(0, 5, "zero row");
}

#[test]
fn test_new_returns_error_for_invalid_dimensions_zero_column() {
    assert_new_fails(5, 0, "zero column");
}

#[test]
fn test_new_returns_error_for_invalid_dimensions_both_zero() {
    assert_new_fails(0, 0, "both zero");
}

#[test]
fn test_get_returns_none_for_empty_matrix() -> Result<(), MatrixError> {
    let matrix = SimpleMatrix::<i32>::new(3, 3)?;
    let result = matrix.get(0, 0)?;
    assert_eq!(result, None);
    Ok(())
}

#[test]
fn test_set_stores_value_and_returns_none_for_empty_cell() -> Result<(), MatrixError> {
    let mut matrix = SimpleMatrix::<i32>::new(3, 3)?;
    let old_value = matrix.set(1, 2, 42)?;
    assert_eq!(old_value, None);
    assert_eq!(matrix.get(1, 2)?, Some(&42));
    Ok(())
}

#[test]
fn test_set_overwrites_existing_value_and_returns_old_value() -> Result<(), MatrixError> {
    let mut matrix = SimpleMatrix::<i32>::new(3, 3)?;
    matrix.set(1, 1, 10)?;
    let old_value = matrix.set(1, 1, 20)?;
    assert_eq!(old_value, Some(10));
    assert_eq!(matrix.get(1, 1)?.map(|v| *v), Some(20));
    Ok(())
}

#[test]
fn test_extract_creates_f32_matrix_from_complex_type() -> Result<(), MatrixError> {
    let mut matrix = SimpleMatrix::<i32>::new(2, 2)?;
    matrix.set(0, 0, 10)?;
    matrix.set(0, 1, 20)?;
    matrix.set(1, 0, 30)?;
    let extracted = matrix.extract(|&val| val as f32 * 2.0);
    assert_eq!(extracted.size(), Size::new(2, 2));
    assert_eq!(extracted.get(0, 0)?.map(|v| *v), Some(20.0));
    assert_eq!(extracted.get(0, 1)?.map(|v| *v), Some(40.0));
    assert_eq!(extracted.get(1, 0)?.map(|v| *v), Some(60.0));
    assert_eq!(extracted.get(1, 1)?, None);
    Ok(())
}

#[test]
fn test_diagonal_components_returns_diagonal_elements_for_square_matrix(
) -> Result<(), MatrixError> {
    let mut matrix = SimpleMatrix::<i32>::new(3, 3)?;
    matrix.set(0, 0, 1)?;
    matrix.set(1, 1, 5)?;
    matrix.set(2, 2, 9)?;
    matrix.set(0, 1, 2)?;
    let diagonal = matrix.diagonal_components();
    let diagonal = diagonal.expect("Should return Some for square matrix");
    assert_eq!(diagonal.len(), 3);
    assert_eq!(diagonal[0], Some(1));
    assert_eq!(diagonal[1], Some(5));
    assert_eq!(diagonal[2], Some(9));
    Ok(())
}

#[test]
fn test_diagonal_components_returns_none_for_rectangular_matrix() -> Result<(), MatrixError> {
    let matrix = SimpleMatrix::<i32>::new(4, 2)?;
    let diagonal = matrix.diagonal_components();
    assert!(diagonal.is_none(), "Should return None for non-square matrix");
    Ok(())
}

#[test]
fn test_diagonal_components_with_some_none_values() -> Result<(), MatrixError> {
    let mut matrix = SimpleMatrix::<i32>::new(3, 3)?;
    matrix.set(0, 0, 1)?;
    matrix.set(2, 2, 9)?;
    let diagonal = matrix.diagonal_components();
    let diagonal = diagonal.expect("Should return Some for square matrix");
    assert_eq!(diagonal.len(), 3);
    assert_eq!(diagonal[0], Some(1));
    assert_eq!(diagonal[1], None);
    assert_eq!(diagonal[2], Some(9));
    Ok(())
}

#[test]
fn test_extract_preserves_none_values() -> Result<(), MatrixError> {
    let mut matrix = SimpleMatrix::<i32>::new(2, 3)?;
    matrix.set(0, 0, 5)?;
    matrix.set(1, 1, 10)?;
    let extracted = matrix.extract(|&val| val as f32);
    assert_eq!(extracted.get(0, 0)?.map(|v| *v), Some(5.0));
    assert_eq!(extracted.get(0, 1)?, None);
    assert_eq!(extracted.get(0, 2)?, None);
    assert_eq!(extracted.get(1, 0)?, None);
    assert_eq!(extracted.get(1, 1)?.map(|v| *v), Some(10.0));
    assert_eq!(extracted.get(1, 2)?, None);
    Ok(())
}

fn assert_get_fails(row: usize, col: usize, description: &str) -> Result<(), MatrixError> {
    let matrix = SimpleMatrix::<i32>::new(3, 3)?;
    let result = matrix.get(row, col);
    assert!(result.is_err(), "Expected error for {}, but got Ok", description);
    Ok(())
}

#[test]
fn test_get_returns_error_for_invalid_indices() -> Result<(), MatrixError> {
    assert_get_fails(3, 0, "row at boundary")?;
    assert_get_fails(4, 0, "row beyond boundary")?;
    assert_get_fails(0, 3, "column at boundary")?;
    assert_get_fails(0, 4, "column beyond boundary")?;
    assert_get_fails(3, 3, "both at boundary")?;
    assert_get_fails(5, 5, "both beyond boundary")
}

fn assert_set_fails(row: usize, col: usize, description: &str) -> Result<(), MatrixError> {
    let mut matrix = SimpleMatrix::<i32>::new(3, 3)?;
    let result = matrix.set(row, col, 42);
    assert!(result.is_err(), "Expected error for {}, but got Ok", description);
    Ok(())
}

#[test]
fn test_set_returns_error_for_invalid_indices() -> Result<(), MatrixError> {
    assert_set_fails(3, 0, "row at boundary")?;
    assert_set_fails(4, 0, "row beyond boundary")?;
    assert_set_fails(0, 3, "column at boundary")?;
    assert_set_fails(0, 4, "column beyond boundary")?;
    assert_set_fails(3, 3, "both at boundary")?;
    assert_set_fails(5, 5, "both beyond boundary")
}

#[test]
fn test_from_mat_creates_copy_with_all_values() -> Result<(), MatrixError> {
    let mut source = SimpleMatrix::<i32>::new(3, 2)?;
    source.set(0, 0, 10)?;
    source.set(0, 1, 20)?;
    source.set(1, 0, 30)?;
    source.set(1, 1, 40)?;
    source.set(2, 0, 50)?;
    source.set(2, 1, 60)?;
    let copied = SimpleMatrix::from_matrix(&source);
    assert_eq!(copied.size(), Size::new(3, 2));
    assert_eq!(copied.get(0, 0)?.map(|v| *v), Some(10));
    assert_eq!(copied.get(0, 1)?.map(|v| *v), Some(20));
    assert_eq!(copied.get(1, 0)?.map(|v| *v), Some(30));
    assert_eq!(copied.get(1, 1)?.map(|v| *v), Some(40));
    assert_eq!(copied.get(2, 0)?.map(|v| *v), Some(50));
    assert_eq!(copied.get(2, 1)?.map(|v| *v), Some(60));
    Ok(())
}

#[test]
fn test_from_mat_preserves_none_values() -> Result<(), MatrixError> {
    let mut source = SimpleMatrix::<i32>::new(2, 3)?;
    source.set(0, 0, 5)?;
    source.set(1, 2, 15)?;
    let copied = SimpleMatrix::from_matrix(&source);
    assert_eq!(copied.size(), Size::new(2, 3));
    assert_eq!(copied.get(0, 0)?.map(|v| *v), Some(5));
    assert_eq!(copied.get(0, 1)?, None);
    assert_eq!(copied.get(0, 2)?, None);
    assert_eq!(copied.get(1, 0)?, None);
    assert_eq!(copied.get(1, 1)?, None);
    assert_eq!(copied.get(1, 2)?.map(|v| *v), Some(15));
    Ok(())
}

#[test]
fn test_from_mat_creates_independent_copy() -> Result<(), MatrixError> {
    let mut source = SimpleMatrix::<i32>::new(2, 2)?;
    source.set(0, 0, 100)?;
    source.set(1, 1, 200)?;
    let mut copied = SimpleMatrix::from_matrix(&source);
    copied.set(0, 0, 999)?;
    assert_eq!(source.get(0, 0)?.map(|v| *v), Some(100), "Source should be unchanged");
    assert_eq!(copied.get(0, 0)?.map(|v| *v), Some(999), "Copy should be modified");
    Ok(())
}

#[test]
fn test_get_row_returns_correct_row_with_mixed_values() -> Result<(), MatrixError> {
    let mut matrix = SimpleMatrix::<i32>::new(3, 4)?;
    matrix.set(1, 0, 10)?;
    matrix.set(1, 1, 20)?;
    matrix.set(1, 3, 40)?;
    let row = matrix.get_row(1)?;
    assert_eq!(row.len(), 4);
    assert_eq!(row[0], Some(10));
    assert_eq!(row[1], Some(20));
    assert_eq!(row[2], None);
    assert_eq!(row[3], Some(40));
    Ok(())
}

#[test]
fn test_get_row_returns_error_for_out_of_bounds() -> Result<(), MatrixError> {
    let matrix = SimpleMatrix::<i32>::new(3, 4)?;
    let result = matrix.get_row(3);
    assert!(result.is_err(), "Expected error for row index at boundary");
    Ok(())
}

#[test]
fn test_set_row_updates_row_with_new_values() -> Result<(), MatrixError> {
    let mut matrix = SimpleMatrix::<i32>::new(3, 4)?;
    matrix.set(1, 0, 10)?;
    matrix.set(1, 1, 20)?;
    let new_row = vec![Some(100), Some(200), None, Some(400)];
    matrix.set_row(1, &new_row)?;
    assert_eq!(matrix.get(1, 0)?, Some(&100));
    assert_eq!(matrix.get(1, 1)?, Some(&200));
    assert_eq!(matrix.get(1, 2)?, None);
    assert_eq!(matrix.get(1, 3)?, Some(&400));
    Ok(())
}

#[test]
fn test_set_row_preserves_other_rows() -> Result<(), MatrixError> {
    let mut matrix = SimpleMatrix::<i32>::new(3, 3)?;
    matrix.set(0, 0, 1)?;
    matrix.set(0, 1, 2)?;
    matrix.set(2, 0, 7)?;
    matrix.set(2, 1, 8)?;
    let new_row = vec![Some(10), Some(20), Some(30)];
    matrix.set_row(1, &new_row)?;
    assert_eq!(matrix.get(0, 0)?, Some(&1));
    assert_eq!(matrix.get(0, 1)?, Some(&2));
    assert_eq!(matrix.get(1, 0)?, Some(&10));
    assert_eq!(matrix.get(1, 1)?, Some(&20));
    assert_eq!(matrix.get(1, 2)?, Some(&30));
    assert_eq!(matrix.get(2, 0)?, Some(&7));
    assert_eq!(matrix.get(2, 1)?, Some(&8));
    Ok(())
}

#[test]
fn test_set_row_returns_error_for_out_of_bounds() -> Result<(), MatrixError> {
    let mut matrix = SimpleMatrix::<i32>::new(3, 4)?;
    let new_row = vec![Some(1), Some(2), Some(3), Some(4)];
    let result = matrix.set_row(3, &new_row);
    assert!(result.is_err(), "Expected error for row index at boundary");
    Ok(())
}

#[test]
fn test_set_row_with_shorter_row_keeps_remaining_cells() -> Result<(), MatrixError> {
    let mut matrix = SimpleMatrix::<i32>::new(2, 3)?;
    matrix.set(0, 2, 9)?;
    matrix.set_row(0, &[Some(1)])?;
    assert_eq!(matrix.get(0, 0)?, Some(&1));
    assert_eq!(matrix.get(0, 1)?, None);
    assert_eq!(matrix.get(0, 2)?, Some(&9));
    Ok(())
}

#[test]
fn test_error_messages_of_simple_matrix() {
    assert_eq!(
        SimpleMatrix::<i32>::new(0, 1).unwrap_err().message(),
        "Row and column must be greater than zero"
    );
    let matrix = SimpleMatrix::<i32>::new(1, 1).unwrap();
    assert_eq!(matrix.get(1, 0).unwrap_err().message(), "Index out of bounds");
    assert_eq!(matrix.get_row(2).unwrap_err(), MatrixError::RowOutOfBounds(2));
    assert_eq!(matrix.get_row(2).unwrap_err().message(), "Can not get row : 2");
    assert_eq!(MatrixError::RowOutOfBounds(105).message(), "Can not get row : 105");
    assert_eq!(MatrixError::RowOutOfBounds(0).message(), "Can not get row : 0");
}

#[test]
fn test_get_through_matrix_trait() -> Result<(), MatrixError> {
    let mut matrix = SimpleMatrix::<i32>::new(2, 2)?;
    matrix.set(1, 0, 3)?;
    assert_eq!(Matrix::get(&matrix, 1, 0)?, Some(&3));
    assert_eq!(Matrix::size(&matrix), Size::new(2, 2));
    Ok(())
}

#[test]
fn writing_back_the_earlier_value_restores_the_matrix() -> Result<(), MatrixError> {
    let mut matrix = SimpleMatrix::<u32>::new(2, 2)?;
    matrix.set(0, 0, 1)?;
    matrix.set(1, 1, 4)?;
    let earlier = matrix.get(0, 0)?.copied().unwrap();
    let replaced = matrix.set(0, 0, 99)?;
    assert_eq!(replaced, Some(earlier));
    assert_eq!(matrix.get(0, 0)?.copied(), Some(99));
    assert_eq!(matrix.get(1, 1)?.copied(), Some(4));
    matrix.set(0, 0, earlier)?;
    assert_eq!(matrix.get(0, 0)?.copied(), Some(1));
    assert_eq!(matrix.get(0, 1)?.copied(), None);
    assert_eq!(matrix.get(1, 0)?.copied(), None);
    assert_eq!(matrix.get(1, 1)?.copied(), Some(4));
    Ok(())
}
