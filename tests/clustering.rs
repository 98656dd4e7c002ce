use mlkit::error::MlError;
use mlkit::kmeans::KMeansClustering;
use mlkit::vector::Vector;

fn pts(raw: &[(i64, i64)]) -> Vec<Vector> {
    raw.iter().map(|&(x, y)| Vector::new_from_vec(vec![x, y])).collect()
}

#[test]
fn two_separated_clusters() {
    let data = pts(&[(0, 0), (100, 100), (2, 0), (102, 100), (0, 2), (100, 102), (2, 2), (102, 102)]);
    let mut km = KMeansClustering::new(2, 2);
    assert_eq!(km.fit(&data, 0, 100), Ok(()));
    let mut cs = km.get_centroids();
    cs.sort();
    assert_eq!(cs, vec![vec![1, 1], vec![101, 101]]);
    let asg = km.get_assignments(&data).unwrap();
    assert_eq!(asg[0], asg[2]);
    assert_eq!(asg[1], asg[3]);
    assert_ne!(asg[0], asg[1]);
}

#[test]
fn too_many_clusters() {
    let data = pts(&[(0, 0), (1, 1)]);
    let mut km = KMeansClustering::new(2, 3);
    assert_eq!(km.fit(&data, 1, 10), Err(MlError::InsufficientData));
    assert!(km.get_centroids().is_empty());
}

#[test]
fn wrong_dimension_point() {
    let mut data = pts(&[(0, 0), (1, 1)]);
    data.push(Vector::new_from_vec(vec![1]));
    let mut km = KMeansClustering::new(2, 2);
    assert_eq!(km.fit(&data, 1, 10), Err(MlError::DimensionMismatch));
    assert_eq!(km.get_assignments(&data), Err(MlError::EmptyInput));
}

#[test]
fn empty_cluster_keeps_centroid() {
    // both seeds are (5, 5); the second never wins a tie, so it gets no point
    let data = pts(&[(5, 5), (5, 5), (9, 9)]);
    let mut km = KMeansClustering::new(2, 2);
    assert_eq!(km.fit(&data, 0, 1), Ok(()));
    assert_eq!(km.get_centroids(), vec![vec![6, 6], vec![5, 5]]);
}

#[test]
fn zero_rounds_keep_seeds() {
    let data = pts(&[(1, 2), (3, 4), (5, 6)]);
    let mut km = KMeansClustering::new(2, 2);
    assert_eq!(km.fit(&data, 0, 0), Ok(()));
    assert_eq!(km.get_centroids(), vec![vec![1, 2], vec![3, 4]]);
}
