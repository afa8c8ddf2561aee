//! The three merge-sort variants. The move-based variant consumes its input
//! and merges from the tails of the two sorted halves, so elements are only
//! relocated, never duplicated. The clone-based variant sorts a sub-range in
//! place through an auxiliary vector of copies. The buffer-based variant
//! also works in place but stages each merge through a scratch buffer sized
//! exactly to the sub-range, acquired and released once per merge step, and
//! falls back to insertion sort on short sub-ranges.

use vstd::prelude::*;
use vstd::seq_lib::group_to_multiset_ensures;
use vstd::multiset::Multiset;
use crate::scratch::{ScratchStats, ScratchBuffer};
use crate::quadratic::insertion_sort_range;
use crate::seqs::{
    sorted, sorted_range, permutes, permutes_range, unchanged_outside, swap_positions,
    lemma_split_concat, lemma_short_is_sorted,
};

verus! {

/// The elements of `s` are in non-increasing order.
pub open spec fn sorted_desc(s: Seq<i32>) -> bool {
    forall|i: int, j: int| 0 <= i <= j < s.len() ==> s[i] >= s[j]
}

/// A sequence with no elements has the empty multiset.
proof fn lemma_empty_multiset(s: Seq<i32>)
    requires
        s.len() == 0,
    ensures
        s.to_multiset() == Multiset::<i32>::empty(),
{
    broadcast use group_to_multiset_ensures;

    assert forall|x: i32| s.to_multiset().count(x) == 0 by {
        assert(!s.contains(x));
    }
    assert(s.to_multiset() =~= Multiset::<i32>::empty());
}

/// Moving the last element of either donor sequence onto the end of the
/// collector leaves the combined multiset of the three sequences unchanged.
proof fn lemma_merge_step(
    c0: Seq<i32>,
    l0: Seq<i32>,
    r0: Seq<i32>,
    c1: Seq<i32>,
    l1: Seq<i32>,
    r1: Seq<i32>,
    x: i32,
)
    requires
        c1 == c0.push(x),
        (l0.len() > 0 && x == l0[l0.len() - 1] && l1 == l0.subrange(0, l0.len() - 1) && r1 == r0)
            || (r0.len() > 0 && x == r0[r0.len() - 1] && r1 == r0.subrange(0, r0.len() - 1)
                && l1 == l0),
    ensures
        c1.to_multiset().add(l1.to_multiset()).add(r1.to_multiset()) == c0.to_multiset().add(
            l0.to_multiset(),
        ).add(r0.to_multiset()),
{
    broadcast use group_to_multiset_ensures;
    broadcast use vstd::multiset::group_multiset_axioms;

    if l0.len() > 0 && x == l0[l0.len() - 1] && l1 == l0.subrange(0, l0.len() - 1) && r1 == r0 {
        assert(l1 =~= l0.remove(l0.len() - 1));
        assert(l0.contains(x)) by {
            assert(l0[l0.len() - 1] == x);
        }
        assert(l1.to_multiset() == l0.to_multiset().remove(x));
        assert(c1.to_multiset() =~= c0.to_multiset().insert(x));
        assert(c1.to_multiset().add(l1.to_multiset()).add(r1.to_multiset())
            =~= c0.to_multiset().add(l0.to_multiset()).add(r0.to_multiset()));
    } else {
        assert(r1 =~= r0.remove(r0.len() - 1));
        assert(r0.contains(x)) by {
            assert(r0[r0.len() - 1] == x);
        }
        assert(r1.to_multiset() == r0.to_multiset().remove(x));
        assert(c1.to_multiset() =~= c0.to_multiset().insert(x));
        assert(c1.to_multiset().add(l1.to_multiset()).add(r1.to_multiset())
            =~= c0.to_multiset().add(l0.to_multiset()).add(r0.to_multiset()));
    }
}

/// Reverse the sequence in place by swapping mirrored positions.
fn reverse_in_place(v: &mut Vec<i32>)
    ensures
        final(v)@ == old(v)@.reverse(),
{
    let n = v.len();
    let mut i: usize = 0;
    while i < n / 2
        invariant
            0 <= i <= n / 2,
            n == v@.len(),
            forall|k: int| 0 <= k < i ==> v@[k] == old(v)@[n - 1 - k],
            forall|k: int| 0 <= k < i ==> v@[n - 1 - k] == old(v)@[k],
            forall|k: int| i <= k < n - i ==> v@[k] == old(v)@[k],
        decreases n / 2 - i,
    {
        swap_positions(v, i, n - 1 - i);
        i += 1;
    }
    assert(v@ =~= old(v)@.reverse());
}

/// Merge sort, ownership-transfer form: consumes the sequence and returns a
/// new sorted sequence, relocating elements without duplicating them. The
/// two sorted halves are merged from their tails (taking the larger last
/// element each time) into a descending collector, which is reversed at the
/// end; merging from the tails avoids repeated linear-time head removals.
pub fn merge_sort(v: Vec<i32>) -> (r: Vec<i32>)
    ensures
        r@.len() == v@.len(),
        sorted(r@),
        permutes(r@, v@),
    decreases v@.len(),
{
    broadcast use group_to_multiset_ensures;

    if v.len() < 2 {
        proof {
            lemma_short_is_sorted(v@);
        }
        return v;
    }

    let mut left_half = v;
    let at = left_half.len() / 2;
    let right_half = left_half.split_off(at);
    proof {
        assert(v@.subrange(0, v@.len() as int) =~= v@);
        lemma_split_concat(v@, 0, at as int, v@.len() as int);
    }

    let mut right = merge_sort(right_half);
    let mut left = merge_sort(left_half);

    let ghost total = left@.to_multiset().add(right@.to_multiset());
    proof {
        assert(total =~= v@.to_multiset());
    }

    let mut collector: Vec<i32> = Vec::new();
    while left.len() > 0 && right.len() > 0
        invariant
            sorted(left@),
            sorted(right@),
            sorted_desc(collector@),
            collector@.to_multiset().add(left@.to_multiset()).add(right@.to_multiset())
                == total,
            forall|k: int, m: int|
                0 <= k < collector@.len() && 0 <= m < left@.len() ==> left@[m] <= collector@[k],
            forall|k: int, m: int|
                0 <= k < collector@.len() && 0 <= m < right@.len() ==> right@[m] <= collector@[k],
        decreases left@.len() + right@.len(),
    {
        let ghost pre_collector = collector@;
        let ghost pre_left = left@;
        let ghost pre_right = right@;
        if left[left.len() - 1] > right[right.len() - 1] {
            let x = left.pop().unwrap();
            collector.push(x);
            proof {
                lemma_merge_step(pre_collector, pre_left, pre_right, collector@, left@, right@, x);
            }
        } else {
            let x = right.pop().unwrap();
            collector.push(x);
            proof {
                lemma_merge_step(pre_collector, pre_left, pre_right, collector@, left@, right@, x);
            }
        }
    }

    while left.len() > 0
        invariant
            sorted(left@),
            sorted_desc(collector@),
            left@.len() > 0 ==> right@.len() == 0,
            collector@.to_multiset().add(left@.to_multiset()).add(right@.to_multiset())
                == total,
            forall|k: int, m: int|
                0 <= k < collector@.len() && 0 <= m < left@.len() ==> left@[m] <= collector@[k],
            forall|k: int, m: int|
                0 <= k < collector@.len() && 0 <= m < right@.len() ==> right@[m] <= collector@[k],
        decreases left@.len(),
    {
        let ghost pre_collector = collector@;
        let ghost pre_left = left@;
        let x = left.pop().unwrap();
        collector.push(x);
        proof {
            lemma_merge_step(pre_collector, pre_left, right@, collector@, left@, right@, x);
        }
    }

    while right.len() > 0
        invariant
            sorted(right@),
            sorted_desc(collector@),
            left@.len() == 0,
            collector@.to_multiset().add(left@.to_multiset()).add(right@.to_multiset())
                == total,
            forall|k: int, m: int|
                0 <= k < collector@.len() && 0 <= m < right@.len() ==> right@[m] <= collector@[k],
        decreases right@.len(),
    {
        let ghost pre_collector = collector@;
        let ghost pre_right = right@;
        let x = right.pop().unwrap();
        collector.push(x);
        proof {
            lemma_merge_step(pre_collector, left@, pre_right, collector@, left@, right@, x);
        }
    }

    proof {
        lemma_empty_multiset(left@);
        lemma_empty_multiset(right@);
        assert(collector@.to_multiset() =~= total);
    }

    let ghost before_reverse = collector@;
    reverse_in_place(&mut collector);
    proof {
        before_reverse.lemma_reverse_to_multiset();
        assert(sorted(collector@)) by {
            assert forall|i: int, j: int|
                0 <= i <= j < collector@.len() implies collector@[i] <= collector@[j] by {
                assert(collector@[i] == before_reverse[before_reverse.len() - 1 - i]);
                assert(collector@[j] == before_reverse[before_reverse.len() - 1 - j]);
            }
        }
        assert(collector@.len() == collector@.to_multiset().len());
        assert(v@.len() == v@.to_multiset().len());
    }
    collector
}

/// Appending the same element to `t` and to the first summand `a` keeps the
/// multiset decomposition of `t` intact.
proof fn lemma_push_first_summand(t: Seq<i32>, a: Seq<i32>, b: Multiset<i32>, x: i32)
    requires
        t.to_multiset() == a.to_multiset().add(b),
    ensures
        t.push(x).to_multiset() == a.push(x).to_multiset().add(b),
{
    broadcast use group_to_multiset_ensures;
    broadcast use vstd::multiset::group_multiset_axioms;

    assert(t.push(x).to_multiset() =~= a.push(x).to_multiset().add(b));
}

/// Appending the same element to `t` and to the second summand `b` keeps the
/// multiset decomposition of `t` intact.
proof fn lemma_push_second_summand(t: Seq<i32>, a: Multiset<i32>, b: Seq<i32>, x: i32)
    requires
        t.to_multiset() == a.add(b.to_multiset()),
    ensures
        t.push(x).to_multiset() == a.add(b.push(x).to_multiset()),
{
    broadcast use group_to_multiset_ensures;
    broadcast use vstd::multiset::group_multiset_axioms;

    assert(t.push(x).to_multiset() =~= a.add(b.push(x).to_multiset()));
}

/// Merge sort, clone-based form, restricted to the positions `lo..hi` of
/// `v`: both halves are sorted in place, then merged in ascending order
/// (left-biased on ties) into an auxiliary vector of copied elements, which
/// is finally written back over the range.
pub fn merge_sort2_range(v: &mut Vec<i32>, lo: usize, hi: usize)
    requires
        lo <= hi <= old(v)@.len(),
    ensures
        final(v)@.len() == old(v)@.len(),
        sorted_range(final(v)@, lo as int, hi as int),
        permutes_range(final(v)@, old(v)@, lo as int, hi as int),
        unchanged_outside(final(v)@, old(v)@, lo as int, hi as int),
    decreases hi - lo,
{
    let n = v.len();
    if hi - lo < 2 {
        return ;
    }
    let mid = lo + (hi - lo) / 2;

    merge_sort2_range(v, lo, mid);
    let ghost after_left = v@;
    proof {
        crate::seqs::lemma_inner_permutes_widens(
            old(v)@,
            after_left,
            lo as int,
            lo as int,
            mid as int,
            hi as int,
        );
    }
    merge_sort2_range(v, mid, hi);
    let ghost base = v@;
    proof {
        crate::seqs::lemma_inner_permutes_widens(
            after_left,
            base,
            lo as int,
            mid as int,
            hi as int,
            hi as int,
        );
        assert(sorted_range(base, lo as int, mid as int));
        assert(sorted_range(base, mid as int, hi as int));
    }

    let mut temporary: Vec<i32> = Vec::with_capacity(hi - lo);
    let mut l = lo;
    let mut r = mid;
    proof {
        broadcast use vstd::multiset::group_multiset_axioms;

        lemma_empty_multiset(v@.subrange(lo as int, lo as int));
        lemma_empty_multiset(v@.subrange(mid as int, mid as int));
        lemma_empty_multiset(temporary@);
        assert(temporary@.to_multiset() =~= v@.subrange(lo as int, lo as int).to_multiset().add(
            v@.subrange(mid as int, mid as int).to_multiset(),
        ));
    }
    while l < mid && r < hi
        invariant
            lo <= l <= mid <= r <= hi <= n,
            v@ == base,
            v@.len() == n,
            sorted_range(v@, lo as int, mid as int),
            sorted_range(v@, mid as int, hi as int),
            temporary@.len() == (l - lo) + (r - mid),
            sorted(temporary@),
            temporary@.to_multiset() == v@.subrange(lo as int, l as int).to_multiset().add(
                v@.subrange(mid as int, r as int).to_multiset(),
            ),
            forall|k: int|
                0 <= k < temporary@.len() && l < mid ==> temporary@[k] <= v@[l as int],
            forall|k: int|
                0 <= k < temporary@.len() && r < hi ==> temporary@[k] <= v@[r as int],
        decreases (mid - l) + (hi - r),
    {
        let ghost pre_temp = temporary@;
        if v[l] < v[r] {
            temporary.push(v[l]);
            proof {
                assert(v@.subrange(lo as int, l + 1)
                    =~= v@.subrange(lo as int, l as int).push(v@[l as int]));
                lemma_push_first_summand(
                    pre_temp,
                    v@.subrange(lo as int, l as int),
                    v@.subrange(mid as int, r as int).to_multiset(),
                    v@[l as int],
                );
            }
            l += 1;
        } else {
            temporary.push(v[r]);
            proof {
                assert(v@.subrange(mid as int, r + 1)
                    =~= v@.subrange(mid as int, r as int).push(v@[r as int]));
                lemma_push_second_summand(
                    pre_temp,
                    v@.subrange(lo as int, l as int).to_multiset(),
                    v@.subrange(mid as int, r as int),
                    v@[r as int],
                );
            }
            r += 1;
        }
    }

    while l < mid
        invariant
            lo <= l <= mid <= r <= hi <= n,
            l < mid ==> r == hi,
            v@ == base,
            v@.len() == n,
            sorted_range(v@, lo as int, mid as int),
            sorted_range(v@, mid as int, hi as int),
            temporary@.len() == (l - lo) + (r - mid),
            sorted(temporary@),
            temporary@.to_multiset() == v@.subrange(lo as int, l as int).to_multiset().add(
                v@.subrange(mid as int, r as int).to_multiset(),
            ),
            forall|k: int|
                0 <= k < temporary@.len() && l < mid ==> temporary@[k] <= v@[l as int],
            forall|k: int|
                0 <= k < temporary@.len() && r < hi ==> temporary@[k] <= v@[r as int],
        decreases mid - l,
    {
        let ghost pre_temp = temporary@;
        temporary.push(v[l]);
        proof {
            assert(v@.subrange(lo as int, l + 1)
                =~= v@.subrange(lo as int, l as int).push(v@[l as int]));
            lemma_push_first_summand(
                pre_temp,
                v@.subrange(lo as int, l as int),
                v@.subrange(mid as int, r as int).to_multiset(),
                v@[l as int],
            );
        }
        l += 1;
    }

    while r < hi
        invariant
            lo <= l <= mid <= r <= hi <= n,
            l == mid,
            v@ == base,
            v@.len() == n,
            sorted_range(v@, mid as int, hi as int),
            temporary@.len() == (l - lo) + (r - mid),
            sorted(temporary@),
            temporary@.to_multiset() == v@.subrange(lo as int, l as int).to_multiset().add(
                v@.subrange(mid as int, r as int).to_multiset(),
            ),
            forall|k: int|
                0 <= k < temporary@.len() && r < hi ==> temporary@[k] <= v@[r as int],
        decreases hi - r,
    {
        let ghost pre_temp = temporary@;
        temporary.push(v[r]);
        proof {
            assert(v@.subrange(mid as int, r + 1)
                =~= v@.subrange(mid as int, r as int).push(v@[r as int]));
            lemma_push_second_summand(
                pre_temp,
                v@.subrange(lo as int, l as int).to_multiset(),
                v@.subrange(mid as int, r as int),
                v@[r as int],
            );
        }
        r += 1;
    }

    proof {
        lemma_split_concat(base, lo as int, mid as int, hi as int);
        assert(temporary@.to_multiset() == base.subrange(lo as int, hi as int).to_multiset());
    }

    let mut k: usize = 0;
    while k < hi - lo
        invariant
            0 <= k <= hi - lo,
            lo <= hi <= n,
            v@.len() == n,
            temporary@.len() == hi - lo,
            forall|t: int| 0 <= t < k ==> v@[lo + t] == temporary@[t],
            forall|t: int| 0 <= t < n && !(lo <= t < lo + k) ==> v@[t] == base[t],
        decreases hi - lo - k,
    {
        v[lo + k] = temporary[k];
        k += 1;
    }

    proof {
        assert(v@.subrange(lo as int, hi as int) =~= temporary@);
        assert(sorted_range(v@, lo as int, hi as int)) by {
            assert forall|a: int, b: int|
                lo <= a <= b < hi implies v@[a] <= v@[b] by {
                assert(v@[a] == temporary@[a - lo]);
                assert(v@[b] == temporary@[b - lo]);
            }
        }
        assert(permutes_range(v@, base, lo as int, hi as int));
    }
}

/// Merge sort, clone-based form, over the whole sequence.
pub fn merge_sort2(v: &mut Vec<i32>)
    ensures
        final(v)@.len() == old(v)@.len(),
        sorted(final(v)@),
        permutes(final(v)@, old(v)@),
{
    let n = v.len();
    merge_sort2_range(v, 0, n);
    assert(v@.subrange(0, n as int) =~= v@);
    assert(old(v)@.subrange(0, n as int) =~= old(v)@);
}

/// The length threshold below which the buffer-based merge sort falls back
/// to insertion sort.
pub const SMALL_RANGE: usize = 32;

/// An upper bound on how many scratch buffers a buffer-based merge sort of a
/// range of `len` elements may acquire.
pub open spec fn scratch_budget(len: int) -> int {
    if len < 32 {
        0
    } else {
        len - 16
    }
}

/// The scratch budget covers one acquisition at a node plus the budgets of
/// its two halves.
proof fn lemma_scratch_budget_split(len: int)
    requires
        len >= 32,
    ensures
        0 <= scratch_budget(len / 2),
        0 <= scratch_budget(len - len / 2),
        1 + scratch_budget(len / 2) + scratch_budget(len - len / 2) <= scratch_budget(len),
{
    assert(len / 2 >= 16);
    assert(len - len / 2 >= 16);
}

/// Merge sort, buffer-based form, restricted to the positions `lo..hi` of
/// `v`. Short sub-ranges are handed to insertion sort; otherwise both
/// halves are sorted in place and merged through one scratch buffer sized
/// exactly to the sub-range, acquired after the recursive calls return and
/// released once the merged elements are copied back. The counters in
/// `stats` record the acquisitions and releases; a call adds the same
/// number to both.
pub fn merge_sort3_range(v: &mut Vec<i32>, lo: usize, hi: usize, stats: &mut ScratchStats)
    requires
        lo <= hi <= old(v)@.len(),
        old(stats).released <= old(stats).acquired,
        old(stats).acquired + scratch_budget(hi - lo) <= u64::MAX,
    ensures
        final(v)@.len() == old(v)@.len(),
        sorted_range(final(v)@, lo as int, hi as int),
        permutes_range(final(v)@, old(v)@, lo as int, hi as int),
        unchanged_outside(final(v)@, old(v)@, lo as int, hi as int),
        old(stats).acquired <= final(stats).acquired,
        final(stats).acquired - old(stats).acquired <= scratch_budget(hi - lo),
        final(stats).acquired - old(stats).acquired == final(stats).released - old(
            stats,
        ).released,
        final(stats).acquired - final(stats).released == old(stats).acquired - old(
            stats,
        ).released,
        hi - lo >= 32 ==> final(stats).acquired - old(stats).acquired >= 1,
    decreases hi - lo,
{
    let n = v.len();
    if hi - lo < 2 {
        return ;
    }
    if hi - lo < SMALL_RANGE {
        insertion_sort_range(v, lo, hi);
        return ;
    }
    proof {
        lemma_scratch_budget_split(hi - lo);
    }
    let mid = lo + (hi - lo) / 2;

    merge_sort3_range(v, lo, mid, stats);
    let ghost after_left = v@;
    proof {
        crate::seqs::lemma_inner_permutes_widens(
            old(v)@,
            after_left,
            lo as int,
            lo as int,
            mid as int,
            hi as int,
        );
    }
    merge_sort3_range(v, mid, hi, stats);
    let ghost base = v@;
    proof {
        crate::seqs::lemma_inner_permutes_widens(
            after_left,
            base,
            lo as int,
            mid as int,
            hi as int,
            hi as int,
        );
        assert(sorted_range(base, lo as int, mid as int));
        assert(sorted_range(base, mid as int, hi as int));
    }

    let ghost stats_before_acquire = *stats;
    let mut buffer = ScratchBuffer::acquire(stats, hi - lo);
    let mut l = lo;
    let mut r = mid;
    proof {
        broadcast use vstd::multiset::group_multiset_axioms;

        lemma_empty_multiset(v@.subrange(lo as int, lo as int));
        lemma_empty_multiset(v@.subrange(mid as int, mid as int));
        lemma_empty_multiset(buffer@);
        assert(buffer@.to_multiset() =~= v@.subrange(lo as int, lo as int).to_multiset().add(
            v@.subrange(mid as int, mid as int).to_multiset(),
        ));
    }
    while l < mid && r < hi
        invariant
            lo <= l <= mid <= r <= hi <= n,
            v@ == base,
            v@.len() == n,
            sorted_range(v@, lo as int, mid as int),
            sorted_range(v@, mid as int, hi as int),
            buffer.capacity() == hi - lo,
            buffer@.len() == (l - lo) + (r - mid),
            sorted(buffer@),
            buffer@.to_multiset() == v@.subrange(lo as int, l as int).to_multiset().add(
                v@.subrange(mid as int, r as int).to_multiset(),
            ),
            forall|k: int| 0 <= k < buffer@.len() && l < mid ==> buffer@[k] <= v@[l as int],
            forall|k: int| 0 <= k < buffer@.len() && r < hi ==> buffer@[k] <= v@[r as int],
        decreases (mid - l) + (hi - r),
    {
        let ghost pre_buf = buffer@;
        if v[l] < v[r] {
            buffer.append_element(v[l]);
            proof {
                assert(v@.subrange(lo as int, l + 1)
                    =~= v@.subrange(lo as int, l as int).push(v@[l as int]));
                lemma_push_first_summand(
                    pre_buf,
                    v@.subrange(lo as int, l as int),
                    v@.subrange(mid as int, r as int).to_multiset(),
                    v@[l as int],
                );
            }
            l += 1;
        } else {
            buffer.append_element(v[r]);
            proof {
                assert(v@.subrange(mid as int, r + 1)
                    =~= v@.subrange(mid as int, r as int).push(v@[r as int]));
                lemma_push_second_summand(
                    pre_buf,
                    v@.subrange(lo as int, l as int).to_multiset(),
                    v@.subrange(mid as int, r as int),
                    v@[r as int],
                );
            }
            r += 1;
        }
    }

    while l < mid
        invariant
            lo <= l <= mid <= r <= hi <= n,
            l < mid ==> r == hi,
            v@ == base,
            v@.len() == n,
            sorted_range(v@, lo as int, mid as int),
            sorted_range(v@, mid as int, hi as int),
            buffer.capacity() == hi - lo,
            buffer@.len() == (l - lo) + (r - mid),
            sorted(buffer@),
            buffer@.to_multiset() == v@.subrange(lo as int, l as int).to_multiset().add(
                v@.subrange(mid as int, r as int).to_multiset(),
            ),
            forall|k: int| 0 <= k < buffer@.len() && l < mid ==> buffer@[k] <= v@[l as int],
            forall|k: int| 0 <= k < buffer@.len() && r < hi ==> buffer@[k] <= v@[r as int],
        decreases mid - l,
    {
        let ghost pre_buf = buffer@;
        buffer.append_element(v[l]);
        proof {
            assert(v@.subrange(lo as int, l + 1)
                =~= v@.subrange(lo as int, l as int).push(v@[l as int]));
            lemma_push_first_summand(
                pre_buf,
                v@.subrange(lo as int, l as int),
                v@.subrange(mid as int, r as int).to_multiset(),
                v@[l as int],
            );
        }
        l += 1;
    }

    while r < hi
        invariant
            lo <= l <= mid <= r <= hi <= n,
            l == mid,
            v@ == base,
            v@.len() == n,
            sorted_range(v@, mid as int, hi as int),
            buffer.capacity() == hi - lo,
            buffer@.len() == (l - lo) + (r - mid),
            sorted(buffer@),
            buffer@.to_multiset() == v@.subrange(lo as int, l as int).to_multiset().add(
                v@.subrange(mid as int, r as int).to_multiset(),
            ),
            forall|k: int| 0 <= k < buffer@.len() && r < hi ==> buffer@[k] <= v@[r as int],
        decreases hi - r,
    {
        let ghost pre_buf = buffer@;
        buffer.append_element(v[r]);
        proof {
            assert(v@.subrange(mid as int, r + 1)
                =~= v@.subrange(mid as int, r as int).push(v@[r as int]));
            lemma_push_second_summand(
                pre_buf,
                v@.subrange(lo as int, l as int).to_multiset(),
                v@.subrange(mid as int, r as int),
                v@[r as int],
            );
        }
        r += 1;
    }

    proof {
        lemma_split_concat(base, lo as int, mid as int, hi as int);
        assert(buffer@.to_multiset() == base.subrange(lo as int, hi as int).to_multiset());
    }

    let mut k: usize = 0;
    while k < hi - lo
        invariant
            0 <= k <= hi - lo,
            lo <= hi <= n,
            v@.len() == n,
            base.len() == n,
            buffer@.len() == hi - lo,
            forall|t: int| 0 <= t < k ==> v@[lo + t] == buffer@[t],
            forall|t: int| 0 <= t < n && !(lo <= t < lo + k) ==> v@[t] == base[t],
        decreases hi - lo - k,
    {
        v[lo + k] = buffer.element_at(k);
        k += 1;
    }

    buffer.release(stats);

    proof {
        assert(v@.subrange(lo as int, hi as int) =~= buffer@);
        assert(sorted_range(v@, lo as int, hi as int)) by {
            assert forall|a: int, b: int| lo <= a <= b < hi implies v@[a] <= v@[b] by {
                assert(v@[a] == buffer@[a - lo]);
                assert(v@[b] == buffer@[b - lo]);
            }
        }
        assert(permutes_range(v@, base, lo as int, hi as int));
    }
}

/// Merge sort, buffer-based form, over the whole sequence, reporting the
/// number of scratch-buffer acquisitions and releases it performed. The two
/// counts are always equal: no buffer leaks and none is released twice.
pub fn merge_sort3_counted(v: &mut Vec<i32>) -> (counts: (u64, u64))
    ensures
        final(v)@.len() == old(v)@.len(),
        sorted(final(v)@),
        permutes(final(v)@, old(v)@),
        counts.0 == counts.1,
        old(v)@.len() >= 32 ==> counts.0 >= 1,
{
    let mut stats = ScratchStats::new();
    let n = v.len();
    merge_sort3_range(v, 0, n, &mut stats);
    assert(v@.subrange(0, n as int) =~= v@);
    assert(old(v)@.subrange(0, n as int) =~= old(v)@);
    (stats.acquired, stats.released)
}

/// Merge sort, buffer-based form, over the whole sequence.
pub fn merge_sort3(v: &mut Vec<i32>)
    ensures
        final(v)@.len() == old(v)@.len(),
        sorted(final(v)@),
        permutes(final(v)@, old(v)@),
{
    let _ = merge_sort3_counted(v);
}

} // verus!
