//! The benchmark harness: run one chosen algorithm over every sequence of a
//! batch, measure the elapsed wall-clock time, and report the mean duration
//! per call. A trusted reference sort and batch comparison serve as the
//! correctness oracle for cross-validation.

use std::time::Duration;
use std::time::Instant;
use vstd::prelude::*;
use crate::seqs::{sorted, permutes};
use crate::quadratic::{bubble_sort, selection_sort, insertion_sort};
use crate::quicksort::quick_sort;
use crate::mergesort::{merge_sort, merge_sort2, merge_sort3};

verus! {

#[verifier::external_type_specification]
#[verifier::external_body]
pub struct ExInstant(Instant);

/// Relies on std::time::Instant::now: an opaque monotonic timestamp;
/// nothing is assumed about its value.
#[verifier::external_body]
fn clock_now() -> Instant {
    Instant::now()
}

/// Relies on std::time::Instant::elapsed: the time since `start`; nothing
/// is assumed about its value.
#[verifier::external_body]
fn elapsed_since(start: &Instant) -> Duration {
    start.elapsed()
}

/// Relies on the `Div<u32>` impl of std::time::Duration, which panics only
/// on division by zero; zero is excluded here.
#[verifier::external_body]
fn duration_per_call(total: Duration, calls: u32) -> Duration
    requires
        calls >= 1,
{
    total / calls
}

/// Relies on slice::sort (through `Vec`'s deref): a stable comparison sort,
/// so the vector afterwards holds the same elements in non-decreasing order.
#[verifier::external_body]
fn std_sort(v: &mut Vec<i32>)
    ensures
        final(v)@.len() == old(v)@.len(),
        sorted(final(v)@),
        permutes(final(v)@, old(v)@),
{
    v.sort();
}

/// The trusted reference sort used only to cross-validate the algorithms
/// under test.
pub fn oracle_sort(v: &mut Vec<i32>)
    ensures
        final(v)@.len() == old(v)@.len(),
        sorted(final(v)@),
        permutes(final(v)@, old(v)@),
{
    std_sort(v);
}

/// The sorting algorithms under test.
#[derive(Clone, Copy, Debug)]
pub enum SortAlgorithm {
    Bubble,
    Selection,
    Insertion,
    MergeMove,
    MergeClone,
    MergeBuffer,
    Quick,
}

/// Sort `v` in place with the chosen algorithm. The ownership-transfer
/// merge sort is adapted by taking the sequence out and putting the sorted
/// result back.
pub fn sort_in_place(algorithm: SortAlgorithm, v: &mut Vec<i32>)
    ensures
        final(v)@.len() == old(v)@.len(),
        sorted(final(v)@),
        permutes(final(v)@, old(v)@),
{
    match algorithm {
        SortAlgorithm::Bubble => bubble_sort(v),
        SortAlgorithm::Selection => selection_sort(v),
        SortAlgorithm::Insertion => insertion_sort(v),
        SortAlgorithm::MergeMove => {
            let mut taken: Vec<i32> = Vec::new();
            core::mem::swap(v, &mut taken);
            let mut result = merge_sort(taken);
            core::mem::swap(v, &mut result);
        },
        SortAlgorithm::MergeClone => merge_sort2(v),
        SortAlgorithm::MergeBuffer => merge_sort3(v),
        SortAlgorithm::Quick => quick_sort(v),
    }
}

/// Benchmark harness, in-place form: apply the chosen algorithm to every
/// sequence of the batch, and return the elapsed wall-clock time divided by
/// the batch size (the mean duration per call). Every sequence afterwards
/// is a sorted rearrangement of what it held before.
pub fn timed_sort(values: &mut Vec<Vec<i32>>, algorithm: SortAlgorithm) -> (mean: Duration)
    requires
        0 < old(values)@.len() <= u32::MAX,
    ensures
        final(values)@.len() == old(values)@.len(),
        forall|j: int|
            0 <= j < final(values)@.len() ==> sorted(final(values)@[j]@) && permutes(
                final(values)@[j]@,
                old(values)@[j]@,
            ),
{
    let start = clock_now();
    let mut i: usize = 0;
    while i < values.len()
        invariant
            0 <= i <= values@.len(),
            values@.len() == old(values)@.len(),
            forall|j: int|
                0 <= j < i ==> sorted(values@[j]@) && permutes(values@[j]@, old(values)@[j]@),
            forall|j: int| i <= j < values@.len() ==> values@[j] == old(values)@[j],
        decreases values@.len() - i,
    {
        sort_in_place(algorithm, &mut values[i]);
        i += 1;
    }
    let total = elapsed_since(&start);
    duration_per_call(total, values.len() as u32)
}

/// Benchmark harness, ownership-transfer form: consume the batch, sort each
/// sequence with the ownership-transfer merge sort, and return the new batch
/// together with the mean duration per call.
pub fn timed_sort2(values: Vec<Vec<i32>>) -> (outcome: (Vec<Vec<i32>>, Duration))
    requires
        0 < values@.len() <= u32::MAX,
    ensures
        outcome.0@.len() == values@.len(),
        forall|j: int|
            0 <= j < outcome.0@.len() ==> sorted(outcome.0@[j]@) && permutes(
                outcome.0@[j]@,
                values@[j]@,
            ),
{
    let count = values.len();
    let start = clock_now();
    let mut remaining = values;
    let mut out: Vec<Vec<i32>> = Vec::with_capacity(count);
    while remaining.len() > 0
        invariant
            out@.len() + remaining@.len() == values@.len(),
            remaining@ == values@.subrange(out@.len() as int, values@.len() as int),
            forall|j: int|
                0 <= j < out@.len() ==> sorted(out@[j]@) && permutes(out@[j]@, values@[j]@),
        decreases remaining@.len(),
    {
        let head = remaining.remove(0);
        assert(head == values@[out@.len() as int]);
        assert(remaining@ =~= values@.subrange(out@.len() as int + 1, values@.len() as int));
        let sorted_head = merge_sort(head);
        out.push(sorted_head);
    }
    let total = elapsed_since(&start);
    (out, duration_per_call(total, count as u32))
}

/// Whether two sequences hold exactly the same elements in the same order.
pub fn vecs_equal(a: &Vec<i32>, b: &Vec<i32>) -> (r: bool)
    ensures
        r <==> a@ == b@,
{
    if a.len() != b.len() {
        return false;
    }
    let mut i: usize = 0;
    while i < a.len()
        invariant
            0 <= i <= a@.len(),
            a@.len() == b@.len(),
            forall|j: int| 0 <= j < i ==> a@[j] == b@[j],
        decreases a@.len() - i,
    {
        if a[i] != b[i] {
            assert(a@[i as int] != b@[i as int]);
            return false;
        }
        i += 1;
    }
    assert(a@ =~= b@);
    true
}

/// Whether two batches agree: same number of sequences, and the sequences
/// at each position are equal. The validation step of the benchmark: every
/// algorithm's output batch must equal the oracle's.
pub fn batches_equal(a: &Vec<Vec<i32>>, b: &Vec<Vec<i32>>) -> (r: bool)
    ensures
        r <==> (a@.len() == b@.len() && (forall|i: int| 0 <= i < a@.len() ==> a@[i]@ == b@[i]@)),
{
    if a.len() != b.len() {
        return false;
    }
    let mut i: usize = 0;
    while i < a.len()
        invariant
            0 <= i <= a@.len(),
            a@.len() == b@.len(),
            forall|j: int| 0 <= j < i ==> a@[j]@ == b@[j]@,
        decreases a@.len() - i,
    {
        if !vecs_equal(&a[i], &b[i]) {
            assert(a@[i as int]@ != b@[i as int]@);
            return false;
        }
        i += 1;
    }
    true
}

} // verus!
