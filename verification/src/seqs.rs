//! Core specifications shared by every sorting algorithm: what it means for
//! a sequence to be sorted, what it means for two sequences to hold the same
//! elements, and the lemmas relating swaps, subranges and multisets.

use vstd::prelude::*;
use vstd::seq_lib::group_to_multiset_ensures;
use vstd::seq_lib::lemma_multiset_commutative;
use vstd::seq_lib::to_multiset_update;
use vstd::multiset::Multiset;

verus! {

/// The elements of `s` at positions `lo..hi` are in non-decreasing order.
pub open spec fn sorted_range(s: Seq<i32>, lo: int, hi: int) -> bool {
    forall|i: int, j: int| lo <= i <= j < hi ==> s[i] <= s[j]
}

/// The whole sequence is in non-decreasing order.
pub open spec fn sorted(s: Seq<i32>) -> bool {
    sorted_range(s, 0, s.len() as int)
}

/// `a` is a rearrangement of `b`: same elements with the same multiplicities.
pub open spec fn permutes(a: Seq<i32>, b: Seq<i32>) -> bool {
    a.to_multiset() == b.to_multiset()
}

/// `a` and `b` agree everywhere outside `lo..hi` (and have equal length).
pub open spec fn unchanged_outside(a: Seq<i32>, b: Seq<i32>, lo: int, hi: int) -> bool {
    &&& a.len() == b.len()
    &&& forall|k: int| 0 <= k < a.len() && !(lo <= k < hi) ==> a[k] == b[k]
}

/// The slices `a[lo..hi]` and `b[lo..hi]` hold the same elements.
pub open spec fn permutes_range(a: Seq<i32>, b: Seq<i32>, lo: int, hi: int) -> bool {
    a.subrange(lo, hi).to_multiset() == b.subrange(lo, hi).to_multiset()
}

/// Exchange the elements at positions `i` and `j`.
pub fn swap_positions(v: &mut Vec<i32>, i: usize, j: usize)
    requires
        i < old(v)@.len(),
        j < old(v)@.len(),
    ensures
        final(v)@ == old(v)@.update(i as int, old(v)@[j as int]).update(j as int, old(v)@[i as int]),
        final(v)@.len() == old(v)@.len(),
        permutes(final(v)@, old(v)@),
{
    let x = v[i];
    let y = v[j];
    v[i] = y;
    v[j] = x;
    proof {
        lemma_swap_permutes(old(v)@, i as int, j as int);
    }
}

/// Swapping two positions of a sequence does not change its multiset.
pub proof fn lemma_swap_permutes(s: Seq<i32>, i: int, j: int)
    requires
        0 <= i < s.len(),
        0 <= j < s.len(),
    ensures
        permutes(s.update(i, s[j]).update(j, s[i]), s),
{
    broadcast use group_to_multiset_ensures;
    broadcast use to_multiset_update;
    broadcast use vstd::multiset::group_multiset_axioms;

    if i == j {
        assert(s.update(i, s[j]).update(j, s[i]) =~= s);
    } else {
        let t = s.update(i, s[j]);
        assert(t[i] == s[j]);
        assert(t[j] == s[j] || t[j] == s[i]) by {
            assert(t[j] == s[j]);
        }
        assert(t.to_multiset() == s.to_multiset().insert(s[j]).remove(s[i]));
        assert(t.update(j, s[i]).to_multiset() == t.to_multiset().insert(s[i]).remove(t[j]));
        assert(t.update(j, s[i]).to_multiset() =~= s.to_multiset());
    }
}

/// A sequence splits at any midpoint into the concatenation of its two parts.
pub proof fn lemma_split_concat(s: Seq<i32>, lo: int, mid: int, hi: int)
    requires
        0 <= lo <= mid <= hi <= s.len(),
    ensures
        s.subrange(lo, hi) == s.subrange(lo, mid) + s.subrange(mid, hi),
        s.subrange(lo, hi).to_multiset() == s.subrange(lo, mid).to_multiset().add(
            s.subrange(mid, hi).to_multiset(),
        ),
{
    assert(s.subrange(lo, hi) =~= s.subrange(lo, mid) + s.subrange(mid, hi));
    lemma_multiset_commutative(s.subrange(lo, mid), s.subrange(mid, hi));
}

/// If `b` rearranges `a` on the inner range `l..h` and agrees with it outside,
/// then `b` also rearranges `a` on any enclosing range `lo..hi`.
pub proof fn lemma_inner_permutes_widens(a: Seq<i32>, b: Seq<i32>, lo: int, l: int, h: int, hi: int)
    requires
        a.len() == b.len(),
        0 <= lo <= l <= h <= hi <= a.len(),
        permutes_range(a, b, l, h),
        unchanged_outside(a, b, l, h),
    ensures
        permutes_range(a, b, lo, hi),
        unchanged_outside(a, b, lo, hi),
{
    lemma_split_concat(a, lo, l, hi);
    lemma_split_concat(a, l, h, hi);
    lemma_split_concat(b, lo, l, hi);
    lemma_split_concat(b, l, h, hi);
    assert(a.subrange(lo, l) =~= b.subrange(lo, l));
    assert(a.subrange(h, hi) =~= b.subrange(h, hi));
}

/// Swapping two positions that both lie inside `lo..hi` rearranges that
/// range and leaves everything outside it untouched.
pub proof fn lemma_swap_inside_range(s: Seq<i32>, i: int, j: int, lo: int, hi: int)
    requires
        0 <= lo <= i < hi <= s.len(),
        lo <= j < hi,
    ensures
        permutes_range(s.update(i, s[j]).update(j, s[i]), s, lo, hi),
        unchanged_outside(s.update(i, s[j]).update(j, s[i]), s, lo, hi),
{
    let t = s.update(i, s[j]).update(j, s[i]);
    let sub = s.subrange(lo, hi);
    assert(t.subrange(lo, hi) =~= sub.update(i - lo, sub[j - lo]).update(j - lo, sub[i - lo]));
    lemma_swap_permutes(sub, i - lo, j - lo);
}

/// Two sequences with equal multisets contain exactly the same values.
pub proof fn lemma_permutes_same_members(a: Seq<i32>, b: Seq<i32>)
    requires
        permutes(a, b),
    ensures
        forall|x: i32| a.contains(x) <==> b.contains(x),
        a.len() == b.len(),
{
    broadcast use group_to_multiset_ensures;

    assert forall|x: i32| a.contains(x) <==> b.contains(x) by {
        assert(a.to_multiset().count(x) == b.to_multiset().count(x));
    }
    assert(a.len() == a.to_multiset().len());
    assert(b.len() == b.to_multiset().len());
}

/// A sequence of length zero or one is vacuously sorted.
pub proof fn lemma_short_is_sorted(s: Seq<i32>)
    requires
        s.len() <= 1,
    ensures
        sorted(s),
{
}

/// Sorting is deterministic: two sorted rearrangements of the same elements
/// are the same sequence. In particular every algorithm of this crate returns
/// the one sorted rearrangement of its input, and sorting an already-sorted
/// sequence leaves it unchanged.
pub proof fn lemma_sorted_permutation_unique(a: Seq<i32>, b: Seq<i32>)
    requires
        sorted(a),
        sorted(b),
        permutes(a, b),
    ensures
        a == b,
{
    let leq = |x: i32, y: i32| x <= y;
    assert(vstd::relations::total_ordering(leq)) by {
        assert forall|x: i32, y: i32| #[trigger] leq(x, y) && leq(y, x) implies x == y by {}
    }
    assert(vstd::relations::sorted_by(a, leq)) by {
        assert forall|i: int, j: int| 0 <= i < j < a.len() implies leq(a[i], a[j]) by {
            assert(a[i] <= a[j]);
        }
    }
    assert(vstd::relations::sorted_by(b, leq)) by {
        assert forall|i: int, j: int| 0 <= i < j < b.len() implies leq(b[i], b[j]) by {
            assert(b[i] <= b[j]);
        }
    }
    vstd::seq_lib::lemma_sorted_unique(a, b, leq);
    assert(a =~= b);
}

/// Sorting an already-sorted sequence is the identity permutation: any sorted
/// result drawn from the same elements equals the sorted input itself.
pub proof fn lemma_sort_idempotent(input: Seq<i32>, output: Seq<i32>)
    requires
        sorted(input),
        sorted(output),
        permutes(output, input),
    ensures
        output == input,
{
    lemma_sorted_permutation_unique(output, input);
}

/// Boundary behaviour: on an empty or single-element sequence every sort is
/// a no-op — any sorted rearrangement of such a sequence is the sequence
/// itself.
pub proof fn lemma_boundary_no_op(input: Seq<i32>, output: Seq<i32>)
    requires
        input.len() <= 1,
        sorted(output),
        permutes(output, input),
    ensures
        output == input,
{
    lemma_short_is_sorted(input);
    lemma_sorted_permutation_unique(output, input);
}

} // verus!
