//! Scenario tests: every algorithm, applied to the same input, must produce
//! the same sorted result.

use sortbench::mergesort::{merge_sort, merge_sort2, merge_sort3, merge_sort3_counted};
use sortbench::quadratic::{bubble_sort, insertion_sort, selection_sort};
use sortbench::quicksort::quick_sort;
use sortbench::harness::oracle_sort;

/// Run every algorithm on its own copy of `input` and collect the outputs.
fn outputs_of_every_algorithm(input: &Vec<i32>) -> Vec<Vec<i32>> {
    let mut results: Vec<Vec<i32>> = Vec::new();
    let mut a = input.clone();
    bubble_sort(&mut a);
    results.push(a);
    let mut b = input.clone();
    selection_sort(&mut b);
    results.push(b);
    let mut c = input.clone();
    insertion_sort(&mut c);
    results.push(c);
    results.push(merge_sort(input.clone()));
    let mut d = input.clone();
    merge_sort2(&mut d);
    results.push(d);
    let mut e = input.clone();
    merge_sort3(&mut e);
    results.push(e);
    let mut f = input.clone();
    quick_sort(&mut f);
    results.push(f);
    results
}

#[test]
fn small_shuffle_sorts_ascending() {
    let input = vec![5, 3, 1, 4, 2];
    for out in outputs_of_every_algorithm(&input) {
        assert_eq!(out, vec![1, 2, 3, 4, 5]);
    }
}

#[test]
fn empty_input_stays_empty() {
    let input: Vec<i32> = vec![];
    for out in outputs_of_every_algorithm(&input) {
        assert_eq!(out, Vec::<i32>::new());
    }
}

#[test]
fn single_element_is_a_no_op() {
    let input = vec![7];
    for out in outputs_of_every_algorithm(&input) {
        assert_eq!(out, vec![7]);
    }
}

#[test]
fn two_elements_exercise_the_base_case() {
    let out_of_order = vec![2, 1];
    for out in outputs_of_every_algorithm(&out_of_order) {
        assert_eq!(out, vec![1, 2]);
    }
    let in_order = vec![1, 2];
    for out in outputs_of_every_algorithm(&in_order) {
        assert_eq!(out, vec![1, 2]);
    }
}

#[test]
fn duplicates_are_all_kept() {
    let input = vec![2, 2, 1];
    for out in outputs_of_every_algorithm(&input) {
        assert_eq!(out, vec![1, 2, 2]);
    }
}

#[test]
fn already_sorted_input_is_unchanged() {
    let input = vec![-3, 0, 0, 1, 5, 5, 9];
    for out in outputs_of_every_algorithm(&input) {
        assert_eq!(out, input);
    }
}

#[test]
fn negative_values_sort_correctly() {
    let input = vec![0, -5, 3, -5, 2];
    for out in outputs_of_every_algorithm(&input) {
        assert_eq!(out, vec![-5, -5, 0, 2, 3]);
    }
}

#[test]
fn descending_forty_hits_the_recursive_merge_path() {
    let input: Vec<i32> = (1..=40).rev().collect();
    let expected: Vec<i32> = (1..=40).collect();
    for out in outputs_of_every_algorithm(&input) {
        assert_eq!(out, expected);
    }
    let mut buffered = input.clone();
    let (acquired, released) = merge_sort3_counted(&mut buffered);
    assert_eq!(buffered, expected);
    assert_eq!(acquired, released);
    assert!(acquired >= 1);
}

#[test]
fn short_input_needs_no_scratch_buffer() {
    let mut short = vec![9, 1, 5];
    let (acquired, released) = merge_sort3_counted(&mut short);
    assert_eq!(short, vec![1, 5, 9]);
    assert_eq!(acquired, 0);
    assert_eq!(released, 0);
}

#[test]
fn scratch_buffer_threshold_is_thirty_two() {
    let below: Vec<i32> = (1..=31).rev().collect();
    let mut v = below.clone();
    let (acquired, released) = merge_sort3_counted(&mut v);
    assert_eq!(v, (1..=31).collect::<Vec<i32>>());
    assert_eq!((acquired, released), (0, 0));

    let at: Vec<i32> = (1..=32).rev().collect();
    let mut w = at.clone();
    let (acquired, released) = merge_sort3_counted(&mut w);
    assert_eq!(w, (1..=32).collect::<Vec<i32>>());
    assert_eq!(acquired, released);
    assert!(acquired >= 1);
}

#[test]
fn oracle_agrees_on_a_small_input() {
    let mut reference = vec![5, 3, 1, 4, 2];
    oracle_sort(&mut reference);
    assert_eq!(reference, vec![1, 2, 3, 4, 5]);
    for out in outputs_of_every_algorithm(&vec![5, 3, 1, 4, 2]) {
        assert_eq!(out, reference);
    }
}
