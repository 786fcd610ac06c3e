//! Selection sort: grow a sorted prefix by swapping in the minimum of the rest.

use vstd::prelude::*;
use crate::order::{sorted, sorted_between, permutation_of, sorting_of, lemma_swap_permutation, lemma_sorted_permutation_unique};

verus! {

/// Sorts `vector` ascending in place by repeated minimum selection.
pub fn selection_sort(vector: &mut Vec<i32>)
    ensures
        final(vector)@.len() == old(vector)@.len(),
        sorting_of(final(vector)@, old(vector)@),
        sorted(old(vector)@) ==> final(vector)@ == old(vector)@,
{
    let size = vector.len();
    let mut i: usize = 0;
    while i < size
        invariant
            size == vector.len(),
            i <= size,
            sorted_between(vector@, 0, i as int),
            forall|a: int, b: int| 0 <= a < i <= b < size ==> vector@[a] <= vector@[b],
            permutation_of(vector@, old(vector)@),
        decreases size - i,
    {
        let mut min_index: usize = i;
        let mut j: usize = i + 1;
        while j < size
            invariant
                size == vector.len(),
                i < size,
                i <= min_index < j,
                j <= size,
                forall|k: int| i <= k < j ==> vector@[min_index as int] <= vector@[k],
            decreases size - j,
        {
            if vector[j] < vector[min_index] {
                min_index = j;
            }
            j += 1;
        }
        proof {
            lemma_swap_permutation(vector@, i as int, min_index as int);
        }
        let temp = vector[i];
        vector[i] = vector[min_index];
        vector[min_index] = temp;
        i += 1;
    }
    proof {
        if sorted(old(vector)@) {
            lemma_sorted_permutation_unique(vector@, old(vector)@);
        }
    }
}

} // verus!
