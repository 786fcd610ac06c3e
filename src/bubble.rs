//! Bubble sort: adjacent-swap passes until a pass swaps nothing.

use vstd::prelude::*;
use crate::order::{sorted, sorted_between, permutation_of, sorting_of, lemma_swap_permutation, lemma_sorted_permutation_unique};

verus! {

/// Sorts `vector` ascending in place by repeated passes that swap adjacent
/// out-of-order pairs, stopping after the first pass with no swap.
pub fn bubble_sort(vector: &mut Vec<i32>)
    ensures
        final(vector)@.len() == old(vector)@.len(),
        sorting_of(final(vector)@, old(vector)@),
        sorted(old(vector)@) ==> final(vector)@ == old(vector)@,
{
    let size = vector.len();
    let mut swapped = true;
    // Passes completed so far; after `passes` passes the last `passes`
    // positions hold their final values.
    let ghost mut passes: int = 0;
    while swapped
        invariant
            size == vector.len(),
            permutation_of(vector@, old(vector)@),
            0 <= passes,
            swapped ==> passes <= size,
            forall|a: int, b: int|
                0 <= a < b < size && b >= size - passes ==> vector@[a] <= vector@[b],
            !swapped ==> sorted(vector@),
        decreases (if swapped { size + 1 - passes } else { 0 }),
    {
        swapped = false;
        if size > 0 {
            let ghost m = size - passes - 1;
            let mut i: usize = 0;
            while i < size - 1
                invariant
                    size == vector.len(),
                    size >= 1,
                    i <= size - 1,
                    m == size - passes - 1,
                    permutation_of(vector@, old(vector)@),
                    forall|a: int| 0 <= a <= i ==> vector@[a] <= vector@[i as int],
                    forall|a: int, b: int|
                        0 <= a < b < size && b >= size - passes ==> vector@[a] <= vector@[b],
                    m >= 0 && i >= m ==> forall|a: int| 0 <= a <= m ==> vector@[a] <= vector@[m],
                    passes + 1 >= size ==> !swapped,
                    !swapped ==> sorted_between(vector@, 0, i + 1),
                decreases size - 1 - i,
            {
                if vector[i] > vector[i + 1] {
                    let ghost v = vector@;
                    proof {
                        lemma_swap_permutation(v, i as int, i + 1);
                    }
                    let temp = vector[i];
                    vector[i] = vector[i + 1];
                    vector[i + 1] = temp;
                    swapped = true;
                    proof {
                        assert forall|a: int, b: int|
                            0 <= a < b < size && b >= size - passes implies vector@[a]
                            <= vector@[b] by {
                            assert(v[i as int] <= v[b] && v[i + 1] <= v[b]);
                        }
                    }
                }
                i += 1;
            }
        }
        proof {
            passes = passes + 1;
        }
    }
    proof {
        if sorted(old(vector)@) {
            lemma_sorted_permutation_unique(vector@, old(vector)@);
        }
    }
}

} // verus!
