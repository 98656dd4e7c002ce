use mlkit::error::MlError;
use mlkit::vector::{isqrt, Vector};

#[test]
fn new_from_vec_keeps_values() {
    let v = Vector::new_from_vec(vec![3, 3, 0, -12]);
    assert_eq!(v.len(), 4);
    assert_eq!(v.as_vec(), vec![3, 3, 0, -12]);
}

#[test]
fn new_from_dims_fills() {
    let v = Vector::new_from_dims(4, 100);
    assert_eq!(v.as_vec(), vec![100, 100, 100, 100]);
    assert_eq!(Vector::new_from_dims(0, 7).len(), 0);
}

#[test]
fn add_is_elementwise() {
    let a = Vector::new_from_vec(vec![3, 4, 0, -12]);
    let b = Vector::new_from_dims(4, 100);
    assert_eq!(a.add(&b).unwrap().as_vec(), vec![103, 104, 100, 88]);
}

#[test]
fn mul_is_elementwise() {
    let a = Vector::new_from_vec(vec![3, 4, 0, -12]);
    let b = Vector::new_from_vec(vec![2, -1, 9, 3]);
    assert_eq!(a.mul(&b).unwrap().as_vec(), vec![6, -4, 0, -36]);
}

#[test]
fn mismatched_lengths_fail() {
    let a = Vector::new_from_vec(vec![1, 2, 3]);
    let b = Vector::new_from_vec(vec![1, 2]);
    assert_eq!(a.add(&b).unwrap_err(), MlError::DimensionMismatch);
    assert_eq!(a.mul(&b).unwrap_err(), MlError::DimensionMismatch);
    assert_eq!(a.distance(&b).unwrap_err(), MlError::DimensionMismatch);
}

#[test]
fn overflow_is_reported() {
    let a = Vector::new_from_vec(vec![i64::MAX]);
    let b = Vector::new_from_vec(vec![1]);
    assert_eq!(a.add(&b).unwrap_err(), MlError::Overflow);
    assert_eq!(a.mul(&Vector::new_from_vec(vec![2])).unwrap_err(), MlError::Overflow);
    let big = Vector::new_from_vec(vec![i64::MIN, i64::MIN]);
    let top = Vector::new_from_vec(vec![i64::MAX, i64::MAX]);
    assert_eq!(big.distance(&top).unwrap_err(), MlError::Overflow);
}

#[test]
fn indexing_is_bounds_checked() {
    let mut v = Vector::new_from_vec(vec![3, 3, 0, -12]);
    assert_eq!(v.set(1, -5), Ok(()));
    assert_eq!(v.get(1), Ok(-5));
    assert_eq!(v.get(4), Err(MlError::IndexOutOfRange));
    assert_eq!(v.set(4, 1), Err(MlError::IndexOutOfRange));
    assert_eq!(v.as_vec(), vec![3, -5, 0, -12]);
}

#[test]
fn distance_values() {
    let a = Vector::new_from_vec(vec![0, 0]);
    let b = Vector::new_from_vec(vec![3, 4]);
    assert_eq!(a.distance(&b), Ok(5));
    assert_eq!(a.sq_distance(&b), Ok(25));
    let c = Vector::new_from_vec(vec![1, 1]);
    assert_eq!(a.distance(&c), Ok(1));
}

#[test]
fn distance_laws_on_values() {
    let a = Vector::new_from_vec(vec![1, -2, 7]);
    let b = Vector::new_from_vec(vec![4, 2, -5]);
    let c = Vector::new_from_vec(vec![0, 9, 3]);
    assert_eq!(a.distance(&a), Ok(0));
    assert_eq!(a.distance(&b), b.distance(&a));
    let ab = a.distance(&b).unwrap();
    let bc = b.distance(&c).unwrap();
    let ac = a.distance(&c).unwrap();
    assert!(ac <= ab + bc + 1);
}

#[test]
fn isqrt_values() {
    assert_eq!(isqrt(0), 0);
    assert_eq!(isqrt(15), 3);
    assert_eq!(isqrt(16), 4);
    assert_eq!(isqrt(u128::MAX), u64::MAX);
}
