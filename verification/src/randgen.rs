//! Generation of the random test sequences the benchmark sorts: fixed-size
//! sequences of uniformly distributed non-negative integers.

use rand::Rng;
use vstd::prelude::*;

verus! {

/// Relies on rand::thread_rng and rand::Rng::gen_range: a uniform sample
/// from the non-empty range `0..i32::MAX`, so the result is non-negative
/// and below `i32::MAX`.
#[verifier::external_body]
fn random_bounded_int() -> (r: i32)
    ensures
        0 <= r < i32::MAX,
{
    rand::thread_rng().gen_range(0..i32::MAX)
}

/// A sequence of `length` random integers, each in `0..i32::MAX`.
pub fn random_sequence(length: usize) -> (r: Vec<i32>)
    ensures
        r@.len() == length,
        forall|i: int| 0 <= i < r@.len() ==> 0 <= #[trigger] r@[i] < i32::MAX,
{
    let mut r: Vec<i32> = Vec::with_capacity(length);
    let mut i: usize = 0;
    while i < length
        invariant
            0 <= i <= length,
            r@.len() == i,
            forall|k: int| 0 <= k < r@.len() ==> 0 <= #[trigger] r@[k] < i32::MAX,
        decreases length - i,
    {
        r.push(random_bounded_int());
        i += 1;
    }
    r
}

/// A batch of `count` random sequences of `length` integers each.
pub fn random_batch(count: usize, length: usize) -> (r: Vec<Vec<i32>>)
    ensures
        r@.len() == count,
        forall|i: int|
            0 <= i < r@.len() ==> r@[i]@.len() == length && (forall|k: int|
                0 <= k < r@[i]@.len() ==> 0 <= #[trigger] r@[i]@[k] < i32::MAX),
{
    let mut r: Vec<Vec<i32>> = Vec::with_capacity(count);
    let mut i: usize = 0;
    while i < count
        invariant
            0 <= i <= count,
            r@.len() == i,
            forall|j: int|
                0 <= j < r@.len() ==> r@[j]@.len() == length && (forall|k: int|
                    0 <= k < r@[j]@.len() ==> 0 <= #[trigger] r@[j]@[k] < i32::MAX),
        decreases count - i,
    {
        r.push(random_sequence(length));
        i += 1;
    }
    r
}

} // verus!
