//! Quick sort with a Lomuto-style partition: the first element of the range
//! is the pivot, a single forward scan grows the region of elements below the
//! pivot, and the two sub-ranges around the placed pivot are sorted
//! recursively. The pivot is deliberately not randomized, so descending
//! input hits the quadratic worst case; that matches the documented design.

use vstd::prelude::*;
use crate::seqs::{
    sorted, sorted_range, permutes, permutes_range, unchanged_outside, swap_positions,
    lemma_swap_inside_range, lemma_inner_permutes_widens, lemma_permutes_same_members,
};

verus! {

/// Quick sort restricted to the positions `lo..hi` of `v`.
pub fn quick_sort_range(v: &mut Vec<i32>, lo: usize, hi: usize)
    requires
        lo <= hi <= old(v)@.len(),
    ensures
        final(v)@.len() == old(v)@.len(),
        sorted_range(final(v)@, lo as int, hi as int),
        permutes_range(final(v)@, old(v)@, lo as int, hi as int),
        unchanged_outside(final(v)@, old(v)@, lo as int, hi as int),
    decreases hi - lo,
{
    let n = v.len();
    if hi - lo < 2 {
        return ;
    }
    if hi - lo == 2 {
        if v[lo] > v[lo + 1] {
            let ghost pre = v@;
            swap_positions(v, lo, lo + 1);
            proof {
                lemma_swap_inside_range(pre, lo as int, lo + 1, lo as int, hi as int);
            }
        }
        return ;
    }

    let pivot = v[lo];
    let mut sp: usize = lo;
    let mut idx: usize = lo + 1;
    while idx < hi
        invariant
            lo <= sp < idx <= hi <= n,
            v@.len() == n,
            v@[lo as int] == pivot,
            forall|k: int| lo < k <= sp ==> v@[k] < pivot,
            forall|k: int| sp < k < idx ==> v@[k] >= pivot,
            permutes_range(v@, old(v)@, lo as int, hi as int),
            unchanged_outside(v@, old(v)@, lo as int, hi as int),
        decreases hi - idx,
    {
        if v[idx] < pivot {
            sp += 1;
            let ghost pre = v@;
            swap_positions(v, sp, idx);
            proof {
                lemma_swap_inside_range(pre, sp as int, idx as int, lo as int, hi as int);
            }
        }
        idx += 1;
    }

    let ghost pre = v@;
    swap_positions(v, lo, sp);
    proof {
        lemma_swap_inside_range(pre, lo as int, sp as int, lo as int, hi as int);
    }

    let ghost placed = v@;
    assert(placed[sp as int] == pivot);
    assert(forall|k: int| lo <= k < sp ==> placed[k] < pivot);
    assert(forall|k: int| sp < k < hi ==> placed[k] >= pivot);

    quick_sort_range(v, lo, sp);
    let ghost after_left = v@;
    proof {
        lemma_inner_permutes_widens(placed, after_left, lo as int, lo as int, sp as int, hi as int);
        lemma_permutes_same_members(
            after_left.subrange(lo as int, sp as int),
            placed.subrange(lo as int, sp as int),
        );
        assert forall|k: int| lo <= k < sp implies after_left[k] < pivot by {
            let s1 = after_left.subrange(lo as int, sp as int);
            let s0 = placed.subrange(lo as int, sp as int);
            assert(s1[k - lo] == after_left[k]);
            assert(s1.contains(after_left[k]));
            let m = choose|m: int| 0 <= m < s0.len() && s0[m] == after_left[k];
            assert(placed[lo + m] < pivot);
        }
    }

    quick_sort_range(v, sp + 1, hi);
    let ghost after_right = v@;
    proof {
        lemma_inner_permutes_widens(
            after_left,
            after_right,
            lo as int,
            sp + 1,
            hi as int,
            hi as int,
        );
        lemma_permutes_same_members(
            after_right.subrange(sp + 1, hi as int),
            after_left.subrange(sp + 1, hi as int),
        );
        assert forall|k: int| sp < k < hi implies after_right[k] >= pivot by {
            let s1 = after_right.subrange(sp + 1, hi as int);
            let s0 = after_left.subrange(sp + 1, hi as int);
            assert(s1[k - sp - 1] == after_right[k]);
            assert(s1.contains(after_right[k]));
            let m = choose|m: int| 0 <= m < s0.len() && s0[m] == after_right[k];
            assert(after_left[sp + 1 + m] >= pivot);
        }
        assert(forall|k: int| lo <= k < sp ==> after_right[k] == after_left[k]);
        assert(after_right[sp as int] == pivot);
        assert forall|a: int, b: int| lo <= a <= b < hi implies after_right[a] <= after_right[b] by {
            if a < sp && b == sp {
                assert(after_right[a] < pivot);
            } else if a == sp && b > sp {
                assert(after_right[b] >= pivot);
            } else if a < sp && b > sp {
                assert(after_right[a] < pivot);
                assert(after_right[b] >= pivot);
            }
        }
    }
}

/// Quick sort over the whole sequence.
pub fn quick_sort(v: &mut Vec<i32>)
    ensures
        final(v)@.len() == old(v)@.len(),
        sorted(final(v)@),
        permutes(final(v)@, old(v)@),
{
    let n = v.len();
    quick_sort_range(v, 0, n);
    assert(v@.subrange(0, n as int) =~= v@);
    assert(old(v)@.subrange(0, n as int) =~= old(v)@);
}

} // verus!
