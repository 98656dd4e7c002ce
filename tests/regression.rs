use mlkit::datapoint::DataPoint;
use mlkit::error::MlError;
use mlkit::fixed::{mul_fixed, SCALE};
use mlkit::supervised::LinearRegression;
use mlkit::vector::Vector;

fn sample(x: i64, y: i64) -> DataPoint {
    DataPoint::new_from_vec(
        Vector::new_from_vec(vec![x * SCALE]),
        Some(Vector::new_from_vec(vec![y * SCALE])),
    )
}

#[test]
fn data_point_dimensions() {
    let p = DataPoint::new_from_dims(4, 10);
    assert_eq!(p.get_dimensions(), (4, 10));
    assert_eq!(p.get_input().as_vec(), vec![0, 0, 0, 0]);
    let q = DataPoint::new_from_vec(Vector::new_from_vec(vec![1, 2, 3]), None);
    assert_eq!(q.get_dimensions(), (3, 0));
    assert!(q.get_output().is_none());
}

#[test]
fn new_model_is_zero() {
    let m = LinearRegression::new_from_dims(2, 1);
    assert_eq!(m.get_dimensions(), (2, 1));
    assert_eq!(m.get_intercept(), 0);
    assert_eq!(m.get_coefficients(), vec![0, 0]);
    let p = DataPoint::new_from_dims(3, 1);
    let n = LinearRegression::new_from_points(&p);
    assert_eq!(n.get_dimensions(), (3, 1));
    assert_eq!(n.get_coefficients(), vec![0, 0, 0]);
}

#[test]
fn fits_a_noise_free_line() {
    let data = vec![sample(1, 3), sample(2, 5), sample(3, 7), sample(4, 9)];
    let mut m = LinearRegression::new_from_dims(1, 1);
    m.fit(&data, 1000, 100_000);
    let tol = SCALE / 100;
    assert!((m.get_intercept() - SCALE).abs() <= tol);
    assert!((m.get_coefficients()[0] - 2 * SCALE).abs() <= tol);
}

#[test]
fn one_step_by_hand() {
    // one sample x = 1, y = 2; rate 0.5: gradient (-2, -2), weights (1, 1)
    let data = vec![sample(1, 2)];
    let mut m = LinearRegression::new_from_dims(1, 1);
    m.fit(&data, SCALE / 2, 1);
    assert_eq!(m.get_intercept(), SCALE);
    assert_eq!(m.get_coefficients(), vec![SCALE]);
}

#[test]
fn no_usable_samples_leave_weights() {
    let mut m = LinearRegression::new_from_dims(1, 1);
    m.fit(&[sample(1, 3)], 1000, 10);
    let before = (m.get_intercept(), m.get_coefficients());
    let unlabelled = DataPoint::new_from_vec(Vector::new_from_vec(vec![SCALE]), None);
    let wide = DataPoint::new_from_dims(1, 2);
    let short = DataPoint::new_from_dims(0, 1);
    m.fit(&[unlabelled, wide, short], 1000, 10);
    assert_eq!((m.get_intercept(), m.get_coefficients()), before);
    let mut z = LinearRegression::new_from_dims(1, 1);
    z.fit(&[], 1000, 10);
    assert_eq!(z.get_intercept(), 0);
}

#[test]
fn eval_errors_and_value() {
    let data = vec![sample(1, 2)];
    let mut m = LinearRegression::new_from_dims(1, 1);
    m.fit(&data, SCALE / 2, 1);
    // prediction 1 + 1 * x
    assert_eq!(m.eval(&[sample(1, 2)]), Ok(0));
    assert_eq!(m.eval(&[sample(2, 1)]), Ok(4 * SCALE));
    assert_eq!(m.eval(&[]), Err(MlError::EmptyInput));
    let unlabelled = DataPoint::new_from_vec(Vector::new_from_vec(vec![SCALE]), None);
    assert_eq!(m.eval(&[sample(1, 2), unlabelled]), Err(MlError::MissingLabel));
    let wide = DataPoint::new_from_dims(2, 1);
    assert_eq!(m.eval(&[wide]), Err(MlError::DimensionMismatch));
}

#[test]
fn eval_empty_output_is_a_dimension_error() {
    let m = LinearRegression::new_from_dims(1, 1);
    let p = DataPoint::new_from_vec(
        Vector::new_from_vec(vec![SCALE, SCALE]),
        Some(Vector::new_from_vec(vec![])),
    );
    assert_eq!(m.eval(&[p]), Err(MlError::DimensionMismatch));
    let q = DataPoint::new_from_vec(Vector::new_from_vec(vec![SCALE]), Some(Vector::new_from_vec(vec![])));
    assert_eq!(m.eval(&[q]), Err(MlError::DimensionMismatch));
    let unlabelled = DataPoint::new_from_vec(Vector::new_from_vec(vec![SCALE, SCALE]), None);
    let empty = DataPoint::new_from_vec(Vector::new_from_vec(vec![SCALE]), Some(Vector::new_from_vec(vec![])));
    assert_eq!(m.eval(&[empty, unlabelled]), Err(MlError::MissingLabel));
}

#[test]
fn eval_reports_overflow() {
    let m = LinearRegression::new_from_dims(1, 1);
    // prediction 0 and error -4e9: the square, 1.6e19, is past what fixed point holds
    let p = DataPoint::new_from_vec(
        Vector::new_from_vec(vec![SCALE]),
        Some(Vector::new_from_vec(vec![4_000_000_000 * SCALE])),
    );
    assert_eq!(m.eval(&[p]), Err(MlError::Overflow));
    let ok = DataPoint::new_from_vec(Vector::new_from_vec(vec![SCALE]), Some(Vector::new_from_vec(vec![3 * SCALE])));
    assert_eq!(m.eval(&[ok]), Ok(9 * SCALE));
}

#[test]
fn fixed_point_product() {
    assert_eq!(mul_fixed(3 * SCALE, SCALE / 2), 3 * SCALE / 2);
    assert_eq!(mul_fixed(-1, 1), 0);
    assert_eq!(mul_fixed(i64::MAX, i64::MAX), i64::MAX);
    assert_eq!(mul_fixed(i64::MIN, i64::MAX), i64::MIN);
}
