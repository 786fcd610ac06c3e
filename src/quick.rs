//! Quick sort on an inclusive index window, with a middle-element pivot.

use vstd::prelude::*;
use crate::order::{
    sorted_between, permutation_of, sorting_of, lemma_swap_permutation,
    lemma_sorted_permutation_unique, lemma_window_permutation, lemma_window_bounds,
};

verus! {

/// Sorts the window `[start, end]` of `vector` ascending in place and leaves
/// every element outside it where it was. A window of at most one element
/// (`start >= end`) is left as it is.
pub fn quick_sort(vector: &mut Vec<i32>, start: usize, end: usize)
    requires
        start < end ==> end < old(vector)@.len(),
    ensures
        final(vector)@.len() == old(vector)@.len(),
        forall|k: int|
            0 <= k < old(vector)@.len() && !(start <= k <= end)
                ==> final(vector)@[k] == old(vector)@[k],
        start >= end ==> final(vector)@ == old(vector)@,
        start <= end < old(vector)@.len() ==> sorting_of(
            final(vector)@.subrange(start as int, end + 1),
            old(vector)@.subrange(start as int, end + 1),
        ),
        permutation_of(final(vector)@, old(vector)@),
        start <= end < old(vector)@.len() && sorted_between(old(vector)@, start as int, end + 1)
            ==> final(vector)@ == old(vector)@,
    decreases end - start,
{
    if start >= end {
        return;
    }
    let ghost v0 = vector@;
    assert(vector.len() == v0.len());
    let ghost lo = start as int;
    let ghost hi = end + 1;
    let middle = start + (end - start) / 2;
    assert(middle == (start + end) / 2);
    let pivot = vector[middle];
    let mut left = start;
    let mut right = end;
    let ghost mut swapped = false;
    while left <= right
        invariant
            vector@.len() == v0.len(),
            v0.len() <= usize::MAX,
            start < end < v0.len(),
            start <= middle <= end,
            lo == start,
            hi == end + 1,
            start <= left <= end + 1,
            right <= end,
            right + 1 >= start,
            left <= right + 2,
            forall|k: int| start <= k < left ==> vector@[k] <= pivot,
            forall|k: int| right < k <= end ==> vector@[k] >= pivot,
            !swapped ==> left <= middle <= right && vector@[middle as int] == pivot,
            swapped ==> start < left && right < end,
            forall|k: int| 0 <= k < v0.len() && !(lo <= k < hi) ==> vector@[k] == v0[k],
            permutation_of(vector@.subrange(lo, hi), v0.subrange(lo, hi)),
        decreases right + 2 - left,
    {
        if vector[left] < pivot {
            left += 1;
        } else if vector[right] > pivot && right > 0 {
            // `right > 0` keeps the unsigned cursor from wrapping below zero.
            right -= 1;
        } else {
            proof {
                let w = vector@;
                let (l, r) = (left as int, right as int);
                lemma_swap_permutation(w.subrange(lo, hi), l - lo, r - lo);
                assert(w.update(l, w[r]).update(r, w[l]).subrange(lo, hi) =~= w.subrange(
                    lo,
                    hi,
                ).update(l - lo, w[r]).update(r - lo, w[l]));
            }
            let temp = vector[left];
            vector[left] = vector[right];
            vector[right] = temp;
            left += 1;
            if right > 0 {
                right -= 1;
            }
            proof {
                swapped = true;
            }
        }
    }
    let ghost v1 = vector@;
    if start < right {
        quick_sort(vector, start, right);
    }
    let ghost v2 = vector@;
    proof {
        if start < right {
            lemma_window_permutation(v2, v1, lo, right + 1, lo, hi);
            lemma_window_bounds(v1, v2, lo, right + 1, pivot);
            let w = v2.subrange(lo, right + 1);
            assert forall|i: int, j: int| lo <= i < j <= right implies v2[i] <= v2[j] by {
                assert(w[i - lo] == v2[i] && w[j - lo] == v2[j]);
            }
        }
    }
    if left < end {
        quick_sort(vector, left, end);
    }
    let ghost v3 = vector@;
    proof {
        if left < end {
            lemma_window_permutation(v3, v2, left as int, hi, lo, hi);
            lemma_window_bounds(v2, v3, left as int, hi, pivot);
            let w = v3.subrange(left as int, hi);
            assert forall|i: int, j: int| left <= i < j < hi implies v3[i] <= v3[j] by {
                assert(w[i - left] == v3[i] && w[j - left] == v3[j]);
            }
        }
        assert forall|k: int| lo <= k < left implies v3[k] <= pivot by {
            if k <= right {
                assert(v2[k] <= pivot);
            }
        }
        assert forall|k: int| right < k < hi implies v3[k] >= pivot by {
            if k < left {
                assert(v2[k] == v1[k]);
            }
        }
        assert(sorted_between(v3, lo, hi)) by {
            assert forall|i: int, j: int| lo <= i < j < hi implies v3[i] <= v3[j] by {
                if j <= right {
                    assert(v3[i] == v2[i] && v3[j] == v2[j]);
                } else if i >= left {
                } else {
                    assert(v3[i] <= pivot);
                    assert(v3[j] >= pivot);
                }
            }
        }
        assert(sorted_between(v3.subrange(lo, hi), 0, hi - lo));
        assert(permutation_of(v3.subrange(lo, hi), v0.subrange(lo, hi)));
        lemma_window_permutation(v3, v0, lo, hi, 0, v0.len() as int);
        assert(v3.subrange(0, v0.len() as int) =~= v3);
        assert(v0.subrange(0, v0.len() as int) =~= v0);
        if sorted_between(v0, lo, hi) {
            assert(sorted_between(v0.subrange(lo, hi), 0, hi - lo));
            lemma_sorted_permutation_unique(v3.subrange(lo, hi), v0.subrange(lo, hi));
            assert forall|k: int| 0 <= k < v0.len() implies v3[k] == v0[k] by {
                if lo <= k < hi {
                    assert(v3.subrange(lo, hi)[k - lo] == v0.subrange(lo, hi)[k - lo]);
                }
            }
            assert(v3 =~= v0);
        }
    }
}

} // verus!
