use mlkit::error::MlError;
use mlkit::matrix::Matrix;

#[test]
fn ragged_rows_are_refused() {
    let r = Matrix::new_from_vec(vec![vec![1, 2], vec![3]]);
    assert_eq!(r.unwrap_err(), MlError::RaggedInput);
}

#[test]
fn rectangular_rows_keep_positions() {
    let m = Matrix::new_from_vec(vec![vec![1, 2], vec![3, 4], vec![5, 6]]).unwrap();
    assert_eq!(m.dims(), (3, 2));
    assert_eq!(m.get(0, 1), Ok(2));
    assert_eq!(m.get(2, 0), Ok(5));
    assert_eq!(m.get(3, 0), Err(MlError::IndexOutOfRange));
    assert_eq!(m.get(0, 2), Err(MlError::IndexOutOfRange));
    assert_eq!(m.row(1).unwrap().as_vec(), vec![3, 4]);
    assert_eq!(m.row(3).unwrap_err(), MlError::IndexOutOfRange);
}

#[test]
fn empty_matrix() {
    let m = Matrix::new_from_vec(vec![]).unwrap();
    assert_eq!(m.dims(), (0, 0));
}

#[test]
fn matrix_sum() {
    let a = Matrix::new_from_dims(3, 2, 1);
    let b = Matrix::new_from_vec(vec![vec![1, 2], vec![3, 4], vec![5, 6]]).unwrap();
    let s = a.add(&b).unwrap();
    assert_eq!(s.row(0).unwrap().as_vec(), vec![2, 3]);
    assert_eq!(s.row(2).unwrap().as_vec(), vec![6, 7]);
    let c = Matrix::new_from_dims(2, 3, 1);
    assert_eq!(a.add(&c).unwrap_err(), MlError::DimensionMismatch);
    let big = Matrix::new_from_dims(1, 1, i64::MAX);
    assert_eq!(big.add(&Matrix::new_from_dims(1, 1, 1)).unwrap_err(), MlError::Overflow);
}

#[test]
fn matrix_set() {
    let mut m = Matrix::new_from_dims(2, 2, 0);
    assert_eq!(m.set(1, 0, 9), Ok(()));
    assert_eq!(m.get(1, 0), Ok(9));
    assert_eq!(m.get(0, 0), Ok(0));
    assert_eq!(m.set(2, 0, 9), Err(MlError::IndexOutOfRange));
}

#[test]
fn matrix_product() {
    let a = Matrix::new_from_vec(vec![vec![1, 2], vec![3, 4], vec![5, 6]]).unwrap();
    let b = Matrix::new_from_vec(vec![vec![1, 2, 3], vec![4, 5, 6]]).unwrap();
    let p = a.mul(&b).unwrap();
    assert_eq!(p.dims(), (3, 3));
    assert_eq!(p.row(0).unwrap().as_vec(), vec![9, 12, 15]);
    assert_eq!(p.row(2).unwrap().as_vec(), vec![29, 40, 51]);
    assert_eq!(a.mul(&a).unwrap_err(), MlError::DimensionMismatch);
    let big = Matrix::new_from_dims(1, 2, i64::MAX / 2 + 1);
    let ones = Matrix::new_from_dims(2, 1, 1);
    assert_eq!(big.mul(&ones).unwrap_err(), MlError::Overflow);
}
