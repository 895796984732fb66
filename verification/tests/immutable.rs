use solver::immutable::Im;

#[test]
fn test_new_creates_immutable_with_value() {
    let immutable = Im::new(42);
    assert_eq!(*immutable, 42);
}

#[test]
fn test_new_creates_immutable_from_value() {
    let immutable: Im<_> = 42.into();
    assert_eq!(*immutable, 42);
}

#[test]
fn test_deref_provides_read_access_to_value() {
    let immutable = Im::new(String::from("Hello, World!"));

    let lowercase = immutable.to_lowercase();
    let length = immutable.len();

    assert_eq!(lowercase, "hello, world!");
    assert_eq!(length, 13);
}

#[test]
fn test_deref_allows_multiple_reads() {
    let immutable = Im::new(vec![1, 2, 3, 4, 5]);

    let sum: i32 = immutable.iter().sum();
    let length = immutable.len();
    let first = immutable.first();

    assert_eq!(sum, 15);
    assert_eq!(length, 5);
    assert_eq!(first, Some(&1));
}

#[derive(Debug, PartialEq, Clone)]
struct CustomStruct {
    id: u32,
    name: String,
}

#[test]
fn test_immutable_with_custom_type() {
    let custom = CustomStruct { id: 1, name: "test".to_string() };

    let immutable = Im::new(custom);

    assert_eq!(immutable.id, 1);
    assert_eq!(immutable.name, "test");
}

#[test]
fn test_immutable_with_empty_collection() {
    let empty_vec: Vec<i32> = vec![];

    let immutable = Im::new(empty_vec);

    assert_eq!(immutable.len(), 0);
    assert_eq!(immutable.is_empty(), true);
}

#[test]
fn test_immutable_with_option_types() {
    let some_value = Im::new(Some(42));
    let none_value: Im<Option<i32>> = Im::new(None);

    assert_eq!(some_value.is_some(), true);
    assert_eq!(*some_value, Some(42));
    assert_eq!(none_value.is_none(), true);
}

#[test]
fn cloned_immutables_compare_equal() {
    let a = Im::new(vec![1, 2]);
    let b = a.clone();
    assert_eq!(a, b);
    assert_ne!(a, Im::new(vec![2, 1]));
}
