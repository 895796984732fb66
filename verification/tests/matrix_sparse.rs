use solver::matrix::error::MatrixError;
use solver::matrix::simple::SimpleMatrix;
use solver::matrix::size::Size;
use solver::matrix::sparse::SparseMatrix;

#[test]
fn test_from_matrix_preserves_size() -> Result<(), MatrixError> {
    let mut source = SimpleMatrix::<i32>::new(3, 4)?;
    source.set(0, 0, 1)?;
    source.set(1, 2, 5)?;
    let sparse = SparseMatrix::from_matrix(&source);
    assert_eq!(sparse.size(), Size::new(3, 4));
    Ok(())
}

#[test]
fn test_from_matrix_converts_sparse_values_correctly() -> Result<(), MatrixError> {
    let mut source = SimpleMatrix::<i32>::new(3, 3)?;
    source.set(0, 0, 1)?;
    source.set(0, 2, 3)?;
    source.set(1, 1, 5)?;
    source.set(2, 0, 7)?;
    let sparse = SparseMatrix::from_matrix(&source);
    assert_eq!(sparse.get(0, 0)?.map(|v| *v), Some(1));
    assert_eq!(sparse.get(0, 2)?.map(|v| *v), Some(3));
    assert_eq!(sparse.get(1, 1)?.map(|v| *v), Some(5));
    assert_eq!(sparse.get(2, 0)?.map(|v| *v), Some(7));
    assert_eq!(sparse.get(0, 1)?, None);
    assert_eq!(sparse.get(1, 0)?, None);
    assert_eq!(sparse.get(2, 2)?, None);
    Ok(())
}

#[test]
fn test_from_matrix_handles_empty_matrix() -> Result<(), MatrixError> {
    let source = SimpleMatrix::<i32>::new(2, 3)?;
    let sparse = SparseMatrix::from_matrix(&source);
    assert_eq!(sparse.get(0, 0)?, None);
    assert_eq!(sparse.get(1, 2)?, None);
    assert_eq!(sparse.size(), Size::new(2, 3));
    Ok(())
}

#[test]
fn test_from_matrix_handles_dense_matrix() -> Result<(), MatrixError> {
    let mut source = SimpleMatrix::<i32>::new(2, 2)?;
    source.set(0, 0, 1)?;
    source.set(0, 1, 2)?;
    source.set(1, 0, 3)?;
    source.set(1, 1, 4)?;
    let sparse = SparseMatrix::from_matrix(&source);
    assert_eq!(sparse.get(0, 0)?.map(|v| *v), Some(1));
    assert_eq!(sparse.get(0, 1)?.map(|v| *v), Some(2));
    assert_eq!(sparse.get(1, 0)?.map(|v| *v), Some(3));
    assert_eq!(sparse.get(1, 1)?.map(|v| *v), Some(4));
    Ok(())
}

#[test]
fn test_get_returns_error_for_out_of_bounds_row() -> Result<(), MatrixError> {
    let mut source = SimpleMatrix::<i32>::new(2, 3)?;
    source.set(0, 0, 1)?;
    let sparse = SparseMatrix::from_matrix(&source);
    let result = sparse.get(2, 0);
    assert_eq!(result.is_err(), true);
    assert_eq!(result.unwrap_err().message(), "Index out of bound");
    Ok(())
}

#[test]
fn test_get_returns_error_for_out_of_bounds_column() -> Result<(), MatrixError> {
    let mut source = SimpleMatrix::<i32>::new(2, 3)?;
    source.set(0, 0, 1)?;
    let sparse = SparseMatrix::from_matrix(&source);
    let result = sparse.get(0, 3);
    assert_eq!(result.is_err(), true);
    assert_eq!(result.unwrap_err().message(), "Index out of bound");
    Ok(())
}

#[test]
fn test_get_returns_none_for_unset_values() -> Result<(), MatrixError> {
    let mut source = SimpleMatrix::<i32>::new(3, 3)?;
    source.set(0, 0, 1)?;
    source.set(2, 2, 9)?;
    let sparse = SparseMatrix::from_matrix(&source);
    let result = sparse.get(1, 1)?;
    assert_eq!(result, None);
    Ok(())
}

#[test]
fn test_extract_transforms_values_correctly() -> Result<(), MatrixError> {
    let mut source = SimpleMatrix::<i32>::new(2, 2)?;
    source.set(0, 0, 10)?;
    source.set(1, 1, 20)?;
    let sparse = SparseMatrix::from_matrix(&source);
    let extracted = sparse.extract(|&v| v as f32 * 2.0);
    assert_eq!(extracted.get(0, 0)?.map(|v| *v), Some(20.0));
    assert_eq!(extracted.get(1, 1)?.map(|v| *v), Some(40.0));
    assert_eq!(extracted.get(0, 1)?, None);
    Ok(())
}

#[test]
fn test_extract_preserves_matrix_structure() -> Result<(), MatrixError> {
    let mut source = SimpleMatrix::<i32>::new(3, 4)?;
    source.set(0, 1, 5)?;
    source.set(2, 3, 15)?;
    let sparse = SparseMatrix::from_matrix(&source);
    let extracted = sparse.extract(|&v| v as f32);
    assert_eq!(extracted.size(), Size::new(3, 4));
    assert_eq!(extracted.get(0, 1)?.map(|v| *v), Some(5.0));
    assert_eq!(extracted.get(2, 3)?.map(|v| *v), Some(15.0));
    assert_eq!(extracted.get(1, 1)?, None);
    Ok(())
}

#[test]
fn test_diagonal_components_returns_correct_values_for_square_matrix() -> Result<(), MatrixError> {
    let mut source = SimpleMatrix::<i32>::new(3, 3)?;
    source.set(0, 0, 1)?;
    source.set(1, 1, 5)?;
    source.set(2, 2, 9)?;
    source.set(0, 1, 2)?;
    let sparse = SparseMatrix::from_matrix(&source);
    let diagonal = sparse.diagonal_components();
    let diagonal = diagonal.expect("Should return Some for square matrix");
    assert_eq!(diagonal.len(), 3);
    assert_eq!(diagonal[0], Some(1));
    assert_eq!(diagonal[1], Some(5));
    assert_eq!(diagonal[2], Some(9));
    Ok(())
}

#[test]
fn test_diagonal_components_handles_missing_diagonal_values() -> Result<(), MatrixError> {
    let mut source = SimpleMatrix::<i32>::new(3, 3)?;
    source.set(0, 0, 1)?;
    source.set(2, 2, 9)?;
    let sparse = SparseMatrix::from_matrix(&source);
    let diagonal = sparse.diagonal_components();
    let diagonal = diagonal.expect("Should return Some for square matrix");
    assert_eq!(diagonal.len(), 3);
    assert_eq!(diagonal[0], Some(1));
    assert_eq!(diagonal[1], None);
    assert_eq!(diagonal[2], Some(9));
    Ok(())
}

#[test]
fn test_diagonal_components_returns_none_for_tall_matrix() -> Result<(), MatrixError> {
    let source = SimpleMatrix::<i32>::new(4, 2)?;
    let sparse = SparseMatrix::from_matrix(&source);
    let diagonal = sparse.diagonal_components();
    assert!(diagonal.is_none(), "Should return None for non-square matrix");
    Ok(())
}

#[test]
fn test_diagonal_components_returns_none_for_wide_matrix() -> Result<(), MatrixError> {
    let source = SimpleMatrix::<i32>::new(2, 4)?;
    let sparse = SparseMatrix::from_matrix(&source);
    let diagonal = sparse.diagonal_components();
    assert!(diagonal.is_none(), "Should return None for non-square matrix");
    Ok(())
}

#[test]
fn test_size_returns_correct_dimensions() -> Result<(), MatrixError> {
    let source = SimpleMatrix::<i32>::new(5, 7)?;
    let sparse = SparseMatrix::from_matrix(&source);
    let size = sparse.size();
    assert_eq!(size.rows(), 5);
    assert_eq!(size.columns(), 7);
    Ok(())
}

#[test]
fn test_sparse_matrix_with_f32_values() -> Result<(), MatrixError> {
    let mut source = SimpleMatrix::<f32>::new(2, 2)?;
    source.set(0, 0, 1.5)?;
    source.set(1, 1, 2.7)?;
    let sparse = SparseMatrix::from_matrix(&source);
    assert_eq!(sparse.get(0, 0)?.map(|v| *v), Some(1.5));
    assert_eq!(sparse.get(1, 1)?.map(|v| *v), Some(2.7));
    assert_eq!(sparse.get(0, 1)?, None);
    Ok(())
}

#[test]
fn test_from_matrix_handles_single_element() -> Result<(), MatrixError> {
    let mut source = SimpleMatrix::<i32>::new(1, 1)?;
    source.set(0, 0, 42)?;
    let sparse = SparseMatrix::from_matrix(&source);
    assert_eq!(sparse.size(), Size::new(1, 1));
    assert_eq!(sparse.get(0, 0)?.map(|v| *v), Some(42));
    Ok(())
}

#[test]
fn test_from_matrix_handles_single_row() -> Result<(), MatrixError> {
    let mut source = SimpleMatrix::<i32>::new(1, 5)?;
    source.set(0, 0, 1)?;
    source.set(0, 2, 3)?;
    source.set(0, 4, 5)?;
    let sparse = SparseMatrix::from_matrix(&source);
    assert_eq!(sparse.get(0, 0)?.map(|v| *v), Some(1));
    assert_eq!(sparse.get(0, 2)?.map(|v| *v), Some(3));
    assert_eq!(sparse.get(0, 4)?.map(|v| *v), Some(5));
    assert_eq!(sparse.get(0, 1)?, None);
    assert_eq!(sparse.get(0, 3)?, None);
    Ok(())
}

#[test]
fn test_from_matrix_handles_single_column() -> Result<(), MatrixError> {
    let mut source = SimpleMatrix::<i32>::new(5, 1)?;
    source.set(0, 0, 1)?;
    source.set(2, 0, 3)?;
    source.set(4, 0, 5)?;
    let sparse = SparseMatrix::from_matrix(&source);
    assert_eq!(sparse.get(0, 0)?.map(|v| *v), Some(1));
    assert_eq!(sparse.get(2, 0)?.map(|v| *v), Some(3));
    assert_eq!(sparse.get(4, 0)?.map(|v| *v), Some(5));
    assert_eq!(sparse.get(1, 0)?, None);
    assert_eq!(sparse.get(3, 0)?, None);
    Ok(())
}

#[test]
fn test_empty_creates_matrix_with_correct_size_and_all_none_values() -> Result<(), MatrixError> {
    let size = Size::new(3, 4);
    let sparse = SparseMatrix::<i32>::empty(size)?;
    assert_eq!(sparse.size(), Size::new(3, 4));
    assert_eq!(sparse.get(0, 0)?, None);
    assert_eq!(sparse.get(1, 2)?, None);
    assert_eq!(sparse.get(2, 3)?, None);
    Ok(())
}

fn assert_empty_fails(rows: usize, cols: usize, description: &str) {
    let size = Size::new(rows, cols);
    let result = SparseMatrix::<i32>::empty(size);
    assert!(result.is_err(), "Should return error for {}", description);
    assert_eq!(
        result.unwrap_err().message(),
        "can not create 0-sized matrix",
        "Error message should be correct for {}",
        description
    );
}

#[test]
fn test_empty_returns_error_for_zero_dimensions() {
    assert_empty_fails(0, 3, "zero rows");
    assert_empty_fails(3, 0, "zero columns");
    assert_empty_fails(0, 0, "both zero");
}

#[test]
fn test_sparse_copy_of_sparse_keeps_cells() -> Result<(), MatrixError> {
    let mut source = SimpleMatrix::<i32>::new(2, 3)?;
    source.set(0, 1, 4)?;
    source.set(1, 0, 8)?;
    let sparse = SparseMatrix::from_matrix(&source);
    let again = SparseMatrix::from_matrix(&sparse);
    let back = SimpleMatrix::from_matrix(&again);
    for r in 0..2 {
        for c in 0..3 {
            assert_eq!(back.get(r, c)?, source.get(r, c)?);
        }
    }
    Ok(())
}
