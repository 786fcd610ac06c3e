//! Merge sort: sort both halves, then merge them through a scratch buffer.

use vstd::prelude::*;
use crate::order::{sorted, sorted_between, permutation_of, sorting_of, lemma_sorted_permutation_unique};

verus! {

broadcast use vstd::seq_lib::group_to_multiset_ensures;

/// Appending `x` to the left operand of a concatenation adds `x` to its multiset.
proof fn lemma_concat_push_left(l: Seq<i32>, r: Seq<i32>, x: i32)
    ensures
        (l.push(x) + r).to_multiset() == (l + r).to_multiset().insert(x),
{
    broadcast use vstd::multiset::group_multiset_axioms;

    vstd::seq_lib::lemma_multiset_commutative(l.push(x), r);
    vstd::seq_lib::lemma_multiset_commutative(l, r);
    assert((l.push(x) + r).to_multiset() =~= (l + r).to_multiset().insert(x));
}

/// Returns a copy of the window `[lo, hi)` of `v`.
fn copy_window(v: &Vec<i32>, lo: usize, hi: usize) -> (r: Vec<i32>)
    requires
        lo <= hi <= v.len(),
    ensures
        r@ == v@.subrange(lo as int, hi as int),
{
    let mut r: Vec<i32> = Vec::with_capacity(hi - lo);
    let mut i: usize = lo;
    while i < hi
        invariant
            lo <= i <= hi <= v.len(),
            r@ == v@.subrange(lo as int, i as int),
        decreases hi - i,
    {
        r.push(v[i]);
        i += 1;
        assert(r@ =~= v@.subrange(lo as int, i as int));
    }
    r
}

/// Merges the ascending `left` and `right` into `result`, taking from `left`
/// on ties.
fn merge(left: &Vec<i32>, right: &Vec<i32>, result: &mut Vec<i32>)
    requires
        sorted(left@),
        sorted(right@),
        old(result)@.len() == left@.len() + right@.len(),
    ensures
        final(result)@.len() == old(result)@.len(),
        sorting_of(final(result)@, left@ + right@),
{
    let ghost total = result@.len();
    let mut left_index: usize = 0;
    let mut right_index: usize = 0;
    let mut result_index: usize = 0;
    assert(result@.subrange(0, 0) =~= left@.subrange(0, 0) + right@.subrange(0, 0));
    assert(result.len() == total);
    while left_index < left.len() || right_index < right.len()
        invariant
            sorted(left@),
            sorted(right@),
            result@.len() == total == left@.len() + right@.len(),
            total <= usize::MAX,
            left_index <= left@.len(),
            right_index <= right@.len(),
            result_index == left_index + right_index,
            permutation_of(
                result@.subrange(0, result_index as int),
                left@.subrange(0, left_index as int) + right@.subrange(0, right_index as int),
            ),
            sorted_between(result@, 0, result_index as int),
            result_index > 0 && left_index < left@.len() ==> result@[result_index - 1]
                <= left@[left_index as int],
            result_index > 0 && right_index < right@.len() ==> result@[result_index - 1]
                <= right@[right_index as int],
        decreases total - result_index,
    {
        let ghost (l0, r0) = (left@.subrange(0, left_index as int), right@.subrange(0, right_index as int));
        let ghost prefix = result@.subrange(0, result_index as int);
        if right_index >= right.len() || (left_index < left.len() && left[left_index]
            <= right[right_index]) {
            result[result_index] = left[left_index];
            proof {
                assert(left@.subrange(0, left_index + 1) =~= l0.push(left@[left_index as int]));
                lemma_concat_push_left(l0, r0, left@[left_index as int]);
            }
            left_index += 1;
        } else {
            result[result_index] = right[right_index];
            proof {
                assert(right@.subrange(0, right_index + 1) =~= r0.push(right@[right_index as int]));
                assert(l0 + r0.push(right@[right_index as int]) =~= (l0 + r0).push(
                    right@[right_index as int],
                ));
            }
            right_index += 1;
        }
        assert(result@.subrange(0, result_index + 1) =~= prefix.push(result@[result_index as int]));
        result_index += 1;
    }
    assert(result@.subrange(0, result_index as int) =~= result@);
    assert(left@.subrange(0, left_index as int) =~= left@);
    assert(right@.subrange(0, right_index as int) =~= right@);
}

/// Sorts `vector` ascending by recursive halving and merging through a
/// scratch buffer.
pub fn merge_sort(vector: &mut Vec<i32>)
    ensures
        final(vector)@.len() == old(vector)@.len(),
        sorting_of(final(vector)@, old(vector)@),
        sorted(old(vector)@) ==> final(vector)@ == old(vector)@,
    decreases old(vector)@.len(),
{
    let size = vector.len();
    if size <= 1 {
        return;
    }
    let middle = size / 2;
    let mut temp = copy_window(vector, 0, size);
    let mut first_half = copy_window(vector, 0, middle);
    let mut second_half = copy_window(vector, middle, size);
    let ghost (f0, s0) = (first_half@, second_half@);
    merge_sort(&mut first_half);
    merge_sort(&mut second_half);
    merge(&first_half, &second_half, &mut temp);
    let ghost v0 = vector@;
    let mut i: usize = 0;
    while i < size
        invariant
            vector@.len() == size == temp@.len(),
            i <= size,
            forall|k: int| 0 <= k < i ==> vector@[k] == temp@[k],
        decreases size - i,
    {
        vector[i] = temp[i];
        i += 1;
    }
    proof {
        assert(vector@ =~= temp@);
        assert(v0 =~= f0 + s0);
        vstd::seq_lib::lemma_multiset_commutative(f0, s0);
        vstd::seq_lib::lemma_multiset_commutative(first_half@, second_half@);
        if sorted(v0) {
            lemma_sorted_permutation_unique(vector@, v0);
        }
    }
}

} // verus!
