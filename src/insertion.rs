//! Insertion sort: shift larger prefix elements right and drop the held value
//! into the gap.

use vstd::prelude::*;
use crate::order::{sorted, sorted_between, permutation_of, sorting_of, lemma_swap_permutation, lemma_sorted_permutation_unique};

verus! {

/// Sorts `vector` ascending in place by inserting each element into the
/// sorted prefix before it, past only the elements strictly greater.
pub fn insertion_sort(vector: &mut Vec<i32>)
    ensures
        final(vector)@.len() == old(vector)@.len(),
        sorting_of(final(vector)@, old(vector)@),
        sorted(old(vector)@) ==> final(vector)@ == old(vector)@,
{
    let size = vector.len();
    let mut current: usize = 1;
    while current < size
        invariant
            size == vector.len(),
            1 <= current,
            size == 0 || current <= size,
            sorted_between(vector@, 0, current as int),
            permutation_of(vector@, old(vector)@),
        decreases size - current,
    {
        let temp = vector[current];
        let mut i: usize = current;
        assert(vector@.update(current as int, temp) =~= vector@);
        while i > 0 && vector[i - 1] > temp
            invariant
                size == vector.len(),
                i <= current < size,
                permutation_of(vector@.update(i as int, temp), old(vector)@),
                sorted_between(vector@, 0, i as int),
                sorted_between(vector@, i + 1, current + 1),
                forall|k: int| i < k <= current ==> vector@[k] > temp,
                forall|a: int, b: int| 0 <= a < i < b <= current ==> vector@[a] <= vector@[b],
            decreases i,
        {
            proof {
                let w = vector@.update(i as int, temp);
                lemma_swap_permutation(w, i - 1, i as int);
                assert(w.update(i - 1, w[i as int]).update(i as int, w[i - 1]) =~= vector@.update(
                    i as int,
                    vector@[i - 1],
                ).update(i - 1, temp));
            }
            vector[i] = vector[i - 1];
            i -= 1;
        }
        vector[i] = temp;
        proof {
            let v = vector@;
            assert forall|a: int, b: int| 0 <= a < b < current + 1 implies v[a] <= v[b] by {
                if a < i && b == i {
                    assert(v[a] <= v[i - 1]);
                }
            }
        }
        current += 1;
    }
    proof {
        if sorted(old(vector)@) {
            lemma_sorted_permutation_unique(vector@, old(vector)@);
        }
    }
}

} // verus!
