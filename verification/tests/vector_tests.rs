use algo::vector::dot_product;
use algo::vector::Vector;
use algo::AlgoError;

#[test]
fn dot_product_of_known_vectors() {
    let a = Vector::new(vec![1, 2, 3]);
    let b = Vector::new(vec![4, 5, 6]);
    assert_eq!(dot_product(a, b).unwrap(), 32);
}

#[test]
fn dot_product_rejects_unequal_lengths() {
    let a = Vector::new(vec![1, 2, 3]);
    let b = Vector::new(vec![4, 5]);
    assert_eq!(dot_product(a, b).unwrap_err(), AlgoError::LengthMismatch);
}

#[test]
fn dot_product_of_empty_vectors_is_zero() {
    let a = Vector::new(vec![]);
    let b = Vector::new(vec![]);
    assert_eq!(dot_product(a, b).unwrap(), 0);
}

#[test]
fn dot_product_accumulates_left_to_right_with_wrapping() {
    // One step overflows and wraps; the next step wraps it back.
    let a = Vector::new(vec![i64::MAX, 1]);
    let b = Vector::new(vec![1, 1]);
    assert_eq!(dot_product(a, b).unwrap(), i64::MIN);
}

#[test]
fn vector_accessors_expose_the_elements() {
    let v = Vector::new(vec![10, 20, 30]);
    assert_eq!(v.len(), 3);
    assert_eq!(v.get(0), 10);
    assert_eq!(v.get(2), 30);
    assert_eq!(v.iter(), &vec![10, 20, 30]);
}
