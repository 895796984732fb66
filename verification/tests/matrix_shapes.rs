use solver::matrix::pos::Pos;
use solver::matrix::rect::{Rect, RectError};
use solver::matrix::size::Size;
use solver::vector::{transposed_position, transposed_size, TransposeMethod};

fn assert_valid_rect(
    top: usize,
    left: usize,
    bottom: usize,
    right: usize,
    expected_height: usize,
    expected_width: usize,
    description: &str,
) {
    let result = Rect::builder().top(top).left(left).bottom(bottom).right(right).build();
    assert!(result.is_ok(), "{}: expected Ok but got Err", description);
    let rect = result.unwrap();
    let size = rect.as_size();
    assert_eq!(size.rows(), expected_height, "{}: height mismatch", description);
    assert_eq!(size.columns(), expected_width, "{}: width mismatch", description);
}

#[test]
fn test_builder_creates_valid_rect() {
    assert_valid_rect(0, 0, 0, 0, 0, 0, "all zeros");
    assert_valid_rect(0, 0, 5, 5, 5, 5, "5x5 from origin");
    assert_valid_rect(1, 2, 3, 4, 2, 2, "offset rect");
    assert_valid_rect(10, 20, 30, 40, 20, 20, "large offset rect");
}

fn assert_invalid_rect(top: usize, left: usize, bottom: usize, right: usize, description: &str) {
    let result = Rect::builder().top(top).left(left).bottom(bottom).right(right).build();
    assert!(result.is_err(), "{}: expected error for invalid rect", description);
}

#[test]
fn test_builder_returns_error_for_invalid_rect() {
    assert_invalid_rect(0, 5, 0, 0, "left > right");
    assert_invalid_rect(0, 10, 0, 5, "left > right with larger values");
    assert_invalid_rect(5, 0, 0, 0, "top > bottom");
    assert_invalid_rect(10, 0, 0, 5, "top > bottom with larger values");
    assert_invalid_rect(5, 10, 0, 5, "both invalid");
}

#[test]
fn test_builder_reports_the_failing_sides() {
    let horizontal = Rect::builder().left(10).right(5).build();
    assert_eq!(horizontal, Err(RectError::InvalidHorizontal { left: 10, right: 5 }));
    let vertical = Rect::builder().top(7).bottom(2).build();
    assert_eq!(vertical, Err(RectError::InvalidVertical { top: 7, bottom: 2 }));
    let both = Rect::builder().left(3).right(1).top(7).bottom(2).build();
    assert_eq!(both, Err(RectError::InvalidHorizontal { left: 3, right: 1 }));
}

fn assert_rect_size(top: usize, left: usize, bottom: usize, right: usize, expected: Size, description: &str) {
    let rect = Rect::builder().top(top).left(left).bottom(bottom).right(right).build().unwrap();
    let size = rect.as_size();
    assert_eq!(size, expected, "{}: size mismatch", description);
}

#[test]
fn test_as_size_returns_correct_size() {
    assert_rect_size(0, 0, 10, 10, Size::new(10, 10), "square from origin");
    assert_rect_size(5, 5, 15, 15, Size::new(10, 10), "square with offset");
    assert_rect_size(0, 0, 5, 10, Size::new(5, 10), "horizontal rectangle");
    assert_rect_size(0, 0, 10, 5, Size::new(10, 5), "vertical rectangle");
    assert_rect_size(2, 3, 7, 8, Size::new(5, 5), "offset square");
}

#[test]
fn test_builder_methods_are_chainable() {
    let result = Rect::builder().left(1).top(2).right(3).bottom(4).build();
    assert!(result.is_ok());
}

#[test]
fn test_rect_default_values() {
    let rect = Rect::builder().build();
    assert!(rect.is_ok());
    let rect = rect.unwrap();
    assert_eq!(rect.as_size(), Size::new(0, 0));
}

#[test]
fn test_rect_clone_and_equality() {
    let rect1 = Rect::builder().top(1).left(2).bottom(5).right(6).build().unwrap();
    let rect2 = rect1.clone();
    assert_eq!(rect1, rect2);
}

#[test]
fn test_size_and_pos_accessors() {
    let size = Size::new(3, 8);
    assert_eq!(size.rows(), 3);
    assert_eq!(size.columns(), 8);
    let pos = Pos::new(4, 9);
    assert_eq!(pos.x(), 4);
    assert_eq!(pos.y(), 9);
    let from_pair: Pos = (4, 9).into();
    assert_eq!(from_pair, pos);
    let pair: (usize, usize) = pos.into();
    assert_eq!(pair, (4, 9));
}

#[test]
fn test_transposed_vector_shapes() {
    assert_eq!(transposed_size(TransposeMethod::Column, 4), Size::new(4, 1));
    assert_eq!(transposed_size(TransposeMethod::Row, 4), Size::new(1, 4));
    assert_eq!(transposed_position(TransposeMethod::Column, 2), (2, 0));
    assert_eq!(transposed_position(TransposeMethod::Row, 2), (0, 2));
}

#[test]
fn rect_errors_describe_the_sides() {
    let horizontal = Rect::builder().left(7).right(3).build().unwrap_err();
    assert_eq!(horizontal.message(), "Invalid X-axiz: (left, right) = (7, 3)");
    let vertical = Rect::builder().top(12).bottom(0).build().unwrap_err();
    assert_eq!(vertical.message(), "Invalid X-axiz: (top, bottom) = (12, 0)");
}
