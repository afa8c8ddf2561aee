//! Harness tests: random batch generation, the two timed forms, batch
//! comparison, and cross-validation of every algorithm against the oracle
//! over batches of random sequences.

use sortbench::harness::{
    batches_equal, oracle_sort, sort_in_place, timed_sort, timed_sort2, vecs_equal, SortAlgorithm,
};
use sortbench::randgen::{random_batch, random_sequence};

fn oracle_batch(mut batch: Vec<Vec<i32>>) -> Vec<Vec<i32>> {
    for v in batch.iter_mut() {
        oracle_sort(v);
    }
    batch
}

#[test]
fn random_sequence_has_requested_length_and_range() {
    let s = random_sequence(100);
    assert_eq!(s.len(), 100);
    for x in s.iter() {
        assert!(*x >= 0);
        assert!(*x < i32::MAX);
    }
}

#[test]
fn random_batch_has_requested_shape() {
    let b = random_batch(4, 17);
    assert_eq!(b.len(), 4);
    for s in b.iter() {
        assert_eq!(s.len(), 17);
    }
}

#[test]
fn vecs_equal_compares_by_value() {
    assert!(vecs_equal(&vec![1, 2, 3], &vec![1, 2, 3]));
    assert!(!vecs_equal(&vec![1, 2, 3], &vec![1, 2, 4]));
    assert!(!vecs_equal(&vec![1, 2, 3], &vec![1, 2]));
    assert!(vecs_equal(&Vec::new(), &Vec::new()));
}

#[test]
fn batches_equal_compares_by_position() {
    let a = vec![vec![1, 2], vec![3]];
    let b = vec![vec![1, 2], vec![3]];
    let c = vec![vec![1, 2], vec![4]];
    let d = vec![vec![1, 2]];
    assert!(batches_equal(&a, &b));
    assert!(!batches_equal(&a, &c));
    assert!(!batches_equal(&a, &d));
}

#[test]
fn timed_sort_sorts_every_sequence_in_place() {
    let mut batch = vec![vec![3, 1, 2], vec![9, 8, 7], vec![5, 5, 0]];
    let _mean = timed_sort(&mut batch, SortAlgorithm::Bubble);
    assert_eq!(batch, vec![vec![1, 2, 3], vec![7, 8, 9], vec![0, 5, 5]]);
}

#[test]
fn timed_sort2_returns_a_sorted_batch() {
    let batch = vec![vec![3, 1, 2], vec![9, 8, 7]];
    let (sorted_batch, _mean) = timed_sort2(batch);
    assert_eq!(sorted_batch, vec![vec![1, 2, 3], vec![7, 8, 9]]);
}

#[test]
fn sort_in_place_dispatches_every_algorithm() {
    let algorithms = [
        SortAlgorithm::Bubble,
        SortAlgorithm::Selection,
        SortAlgorithm::Insertion,
        SortAlgorithm::MergeMove,
        SortAlgorithm::MergeClone,
        SortAlgorithm::MergeBuffer,
        SortAlgorithm::Quick,
    ];
    for algorithm in algorithms {
        let mut v = vec![4, -1, 4, 0, 2];
        sort_in_place(algorithm, &mut v);
        assert_eq!(v, vec![-1, 0, 2, 4, 4]);
    }
}

#[test]
fn large_random_batch_cross_validates_fast_algorithms() {
    let tests = random_batch(10, 10000);
    let expected = oracle_batch(tests.clone());

    let mut merge_clone = tests.clone();
    let _t = timed_sort(&mut merge_clone, SortAlgorithm::MergeClone);
    assert!(batches_equal(&merge_clone, &expected));

    let mut merge_buffer = tests.clone();
    let _t = timed_sort(&mut merge_buffer, SortAlgorithm::MergeBuffer);
    assert!(batches_equal(&merge_buffer, &expected));

    let mut quick = tests.clone();
    let _t = timed_sort(&mut quick, SortAlgorithm::Quick);
    assert!(batches_equal(&quick, &expected));

    let (merge_move, _t) = timed_sort2(tests.clone());
    assert!(batches_equal(&merge_move, &expected));
}

#[test]
fn random_batch_cross_validates_quadratic_algorithms() {
    let tests = random_batch(10, 1000);
    let expected = oracle_batch(tests.clone());

    let mut bubble = tests.clone();
    let _t = timed_sort(&mut bubble, SortAlgorithm::Bubble);
    assert!(batches_equal(&bubble, &expected));

    let mut selection = tests.clone();
    let _t = timed_sort(&mut selection, SortAlgorithm::Selection);
    assert!(batches_equal(&selection, &expected));

    let mut insertion = tests.clone();
    let _t = timed_sort(&mut insertion, SortAlgorithm::Insertion);
    assert!(batches_equal(&insertion, &expected));
}
