use knn_classifier::knn::{
    check_dimensions, k_nearest_neighbors, nearest_vectors, vote_classifier, Accuracy,
};
use knn_classifier::KnnError;

/// Euclidean distance between two equal-length vectors, encoded as a
/// distance key: the bit pattern of the (non-negative) double preserves
/// the distance order.
fn euclid_key(a: &[f64], b: &[f64]) -> u64 {
    assert_eq!(a.len(), b.len());
    let mut sum: f64 = 0.0;
    for i in 0..a.len() {
        sum += (a[i] - b[i]).powf(2.0);
    }
    sum.powf(0.5).to_bits()
}

fn keys_to_all(train: &[Vec<f64>], point: &[f64]) -> Vec<u64> {
    train.iter().map(|t| euclid_key(t, point)).collect()
}

#[test]
fn test_nearest_vectors() {
    // query at the origin; the first three training vectors are distinctly
    // closer, so their indices come back in order of distance
    let test_point = vec![0.0, 0.0, 0.0];
    let vec_0: Vec<f64> = vec![1.0, 0.0, 0.0];
    let vec_1: Vec<f64> = vec![0.0, 2.0, 0.0];
    let vec_2: Vec<f64> = vec![0.0, 0.0, 3.0];
    let vec_3: Vec<f64> = vec![2.0, 2.0, 2.0];
    let vec_4: Vec<f64> = vec![5.0, 4.0, 12.0];
    let data_vec = vec![vec_0, vec_1, vec_2, vec_3, vec_4];
    let expected_output: Vec<usize> = vec![0, 1, 2];
    let keys = keys_to_all(&data_vec, &test_point);
    assert_eq!(expected_output, nearest_vectors(&keys, 3).unwrap());
}

#[test]
fn test_k_nearest_neighbors() {
    // one test point near the true-labelled cluster (correctly labelled
    // true) and one far point whose true label is false but whose three
    // nearest training rows vote true: one of two predictions is correct
    let test_vec_0 = vec![0.0, 0.0, 0.0];
    let test_vec_1 = vec![10.0, 10.0, 10.0];
    let train_vec_0 = vec![1.0, 1.0, 1.0];
    let train_vec_1 = vec![2.0, 2.0, 2.0];
    let train_vec_2 = vec![5.0, 5.0, 5.0];
    let train_vec_3 = vec![8.0, 8.0, 8.0];
    let train_vec_4 = vec![6.0, 6.0, 6.0];

    let train_labels = vec![true, true, true, false, true];
    let test_labels = vec![true, false];
    let train_data = vec![train_vec_0, train_vec_1, train_vec_2, train_vec_3, train_vec_4];
    let test_data = vec![test_vec_0, test_vec_1];

    let dists: Vec<Vec<u64>> = test_data.iter().map(|p| keys_to_all(&train_data, p)).collect();
    let (predictions, accuracy) =
        k_nearest_neighbors(&dists, &train_labels, &test_labels, 3).unwrap();

    let expected_accuracy: f32 = 0.5;
    let expected_predicted_labels = vec![true, true];
    assert_eq!(expected_predicted_labels, predictions);
    assert_eq!(Accuracy { correct: 1, total: 2 }, accuracy);
    assert_eq!(expected_accuracy, accuracy.correct as f32 / accuracy.total as f32);
}

#[test]
fn check_dimensions_guards_unequal_lengths() {
    // distance computation must refuse vectors of unequal length before
    // any arithmetic; the guard is the library's
    assert_eq!(Err(KnnError::DimensionMismatch), check_dimensions(3, 4));
    assert_eq!(Err(KnnError::DimensionMismatch), check_dimensions(4, 0));
    assert_eq!(Ok(()), check_dimensions(4, 4));
    assert_eq!(Ok(()), check_dimensions(0, 0));
}

#[test]
fn nearest_vectors_insufficient_neighbors() {
    let keys: Vec<u64> = vec![4, 9, 1];
    assert_eq!(Err(KnnError::InsufficientNeighbors), nearest_vectors(&keys, 4));
}

#[test]
fn nearest_vectors_orders_all_keys() {
    let keys: Vec<u64> = vec![30, 10, 20, 40, 0];
    assert_eq!(vec![4, 1, 2, 0, 3], nearest_vectors(&keys, 5).unwrap());
}

#[test]
fn nearest_vectors_ties_keep_index_order() {
    // two training rows equidistant from the query: the smaller original
    // index is listed first, as a stable sort by distance would leave it
    let keys: Vec<u64> = vec![7, 3, 7, 3, 1];
    assert_eq!(vec![4, 1, 3, 0], nearest_vectors(&keys, 4).unwrap());
}

#[test]
fn nearest_vectors_zero_neighbors_of_empty() {
    let keys: Vec<u64> = vec![];
    assert_eq!(Vec::<usize>::new(), nearest_vectors(&keys, 0).unwrap());
}

#[test]
fn vote_classifier_strict_majority() {
    assert!(vote_classifier(&vec![true, false, true]));
    assert!(!vote_classifier(&vec![false, true, false, false]));
    assert!(vote_classifier(&vec![true]));
}

#[test]
fn vote_classifier_permutation_invariance() {
    // the same votes in any order give the same majority label
    assert!(vote_classifier(&vec![true, true, false]));
    assert!(vote_classifier(&vec![true, false, true]));
    assert!(vote_classifier(&vec![false, true, true]));
}

#[test]
fn vote_classifier_tie_takes_nearest_label() {
    // on an exact tie the label of the single nearest neighbor wins
    assert!(vote_classifier(&vec![true, false]));
    assert!(!vote_classifier(&vec![false, true]));
    assert!(!vote_classifier(&vec![false, true, true, false]));
}

#[test]
fn classification_empty_test_set() {
    let dists: Vec<Vec<u64>> = vec![];
    let train_labels = vec![true, false];
    let test_labels: Vec<bool> = vec![];
    assert_eq!(
        Err(KnnError::EmptyTestSet),
        k_nearest_neighbors(&dists, &train_labels, &test_labels, 1)
    );
}

#[test]
fn classification_insufficient_neighbors() {
    let dists: Vec<Vec<u64>> = vec![vec![5, 6]];
    let train_labels = vec![true, false];
    let test_labels = vec![true];
    assert_eq!(
        Err(KnnError::InsufficientNeighbors),
        k_nearest_neighbors(&dists, &train_labels, &test_labels, 3)
    );
}

#[test]
fn classification_all_correct() {
    // a single neighbor copies the nearest training row's label
    let dists: Vec<Vec<u64>> = vec![vec![1, 100], vec![100, 1]];
    let train_labels = vec![true, false];
    let test_labels = vec![true, false];
    let (predictions, accuracy) =
        k_nearest_neighbors(&dists, &train_labels, &test_labels, 1).unwrap();
    assert_eq!(vec![true, false], predictions);
    assert_eq!(Accuracy { correct: 2, total: 2 }, accuracy);
    assert_eq!(1.0_f32, accuracy.correct as f32 / accuracy.total as f32);
}
