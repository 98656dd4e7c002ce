//! A small numeric toolkit: integer vectors and matrices, training samples,
//! linear regression by batch gradient descent and k-means clustering.
//!
//! Numbers are `i64`. Where the learning routines need fractions they read
//! values as fixed-point numbers with `SCALE` units per whole.

pub mod error;
pub mod vector;
pub mod matrix;
pub mod datapoint;
pub mod fixed;
pub mod supervised;
pub mod kmeans;
