//! The three quadratic in-place sorts: bubble sort, selection sort and
//! insertion sort. Insertion sort also exists in a sub-range form, which the
//! buffer-based merge sort uses as its small-range fallback.

use vstd::prelude::*;
use crate::seqs::{
    sorted, sorted_range, permutes, permutes_range, unchanged_outside, swap_positions,
    lemma_swap_inside_range,
};

verus! {

/// Bubble sort: for each pass, scan adjacent pairs and swap every inversion;
/// each pass carries the largest remaining element to the tail.
pub fn bubble_sort(v: &mut Vec<i32>)
    ensures
        final(v)@.len() == old(v)@.len(),
        sorted(final(v)@),
        permutes(final(v)@, old(v)@),
{
    let n = v.len();
    let mut pass: usize = 0;
    while pass < n
        invariant
            0 <= pass <= n,
            v@.len() == n,
            permutes(v@, old(v)@),
            sorted_range(v@, n - pass, n as int),
            forall|k: int, t: int| 0 <= k < n - pass && n - pass <= t < n ==> v@[k] <= v@[t],
        decreases n - pass,
    {
        let mut j: usize = 0;
        while j < n - 1 - pass
            invariant
                0 <= pass < n,
                0 <= j <= n - 1 - pass,
                v@.len() == n,
                permutes(v@, old(v)@),
                sorted_range(v@, n - pass, n as int),
                forall|k: int, t: int| 0 <= k < n - pass && n - pass <= t < n ==> v@[k] <= v@[t],
                forall|k: int| 0 <= k < j ==> v@[k] <= v@[j as int],
            decreases n - 1 - pass - j,
        {
            if v[j] > v[j + 1] {
                swap_positions(v, j, j + 1);
            }
            j += 1;
        }
        pass += 1;
    }
}

/// Selection sort: for each position, find the index of the least element of
/// the unsorted suffix (first occurrence on ties) and swap it into place.
pub fn selection_sort(v: &mut Vec<i32>)
    ensures
        final(v)@.len() == old(v)@.len(),
        sorted(final(v)@),
        permutes(final(v)@, old(v)@),
{
    let n = v.len();
    let mut i: usize = 0;
    while i < n
        invariant
            0 <= i <= n,
            v@.len() == n,
            permutes(v@, old(v)@),
            sorted_range(v@, 0, i as int),
            forall|k: int, t: int| 0 <= k < i && i <= t < n ==> v@[k] <= v@[t],
        decreases n - i,
    {
        let ghost before = v@;
        let mut selected: usize = i;
        let mut j: usize = i + 1;
        while j < n
            invariant
                i + 1 <= j <= n,
                i <= selected < j,
                v@ == before,
                v@.len() == n,
                forall|m: int| i <= m < j ==> v@[selected as int] <= v@[m],
            decreases n - j,
        {
            if v[j] < v[selected] {
                selected = j;
            }
            j += 1;
        }
        swap_positions(v, i, selected);
        i += 1;
    }
}

/// Insertion sort restricted to the positions `lo..hi` of `v`: everything
/// outside that range is left untouched. For each position in the range,
/// walk the element backward past every greater left neighbour, stopping at
/// the first non-inversion.
pub fn insertion_sort_range(v: &mut Vec<i32>, lo: usize, hi: usize)
    requires
        lo <= hi <= old(v)@.len(),
    ensures
        final(v)@.len() == old(v)@.len(),
        sorted_range(final(v)@, lo as int, hi as int),
        permutes_range(final(v)@, old(v)@, lo as int, hi as int),
        unchanged_outside(final(v)@, old(v)@, lo as int, hi as int),
{
    let n = v.len();
    if hi - lo < 2 {
        return ;
    }
    let mut i: usize = lo + 1;
    while i < hi
        invariant
            lo < i <= hi <= n,
            v@.len() == n,
            sorted_range(v@, lo as int, i as int),
            permutes_range(v@, old(v)@, lo as int, hi as int),
            unchanged_outside(v@, old(v)@, lo as int, hi as int),
        decreases hi - i,
    {
        let mut j: usize = i;
        while j > lo && v[j] < v[j - 1]
            invariant
                lo <= j <= i < hi <= n,
                v@.len() == n,
                sorted_range(v@, lo as int, j as int),
                sorted_range(v@, j as int, i + 1),
                forall|k: int, t: int| lo <= k < j && j < t <= i ==> v@[k] <= v@[t],
                permutes_range(v@, old(v)@, lo as int, hi as int),
                unchanged_outside(v@, old(v)@, lo as int, hi as int),
            decreases j,
        {
            let ghost pre = v@;
            swap_positions(v, j - 1, j);
            proof {
                lemma_swap_inside_range(pre, j - 1, j as int, lo as int, hi as int);
            }
            j -= 1;
        }
        assert(sorted_range(v@, lo as int, i + 1));
        i += 1;
    }
}

/// Insertion sort over the whole sequence.
pub fn insertion_sort(v: &mut Vec<i32>)
    ensures
        final(v)@.len() == old(v)@.len(),
        sorted(final(v)@),
        permutes(final(v)@, old(v)@),
{
    let n = v.len();
    insertion_sort_range(v, 0, n);
    assert(v@.subrange(0, n as int) =~= v@);
    assert(old(v)@.subrange(0, n as int) =~= old(v)@);
}

} // verus!
