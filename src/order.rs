//! Mathematical model shared by every sort: ascending order and permutation.

use vstd::prelude::*;

verus! {

broadcast use vstd::seq_lib::group_to_multiset_ensures;

/// Every element of `s` in `[lo, hi)` is at most every later element of that window.
pub open spec fn sorted_between(s: Seq<i32>, lo: int, hi: int) -> bool {
    forall|i: int, j: int| lo <= i < j < hi ==> s[i] <= s[j]
}

/// The whole sequence is in ascending order.
pub open spec fn sorted(s: Seq<i32>) -> bool {
    sorted_between(s, 0, s.len() as int)
}

/// `a` holds the same values as `b`, each as many times.
pub open spec fn permutation_of(a: Seq<i32>, b: Seq<i32>) -> bool {
    a.to_multiset() == b.to_multiset()
}

/// `r` is what sorting `s` ascending yields: ordered, and a permutation of `s`.
pub open spec fn sorting_of(r: Seq<i32>, s: Seq<i32>) -> bool {
    sorted(r) && permutation_of(r, s)
}

/// Exchanging two positions keeps the multiset of values.
pub proof fn lemma_swap_permutation(s: Seq<i32>, i: int, j: int)
    requires
        0 <= i < s.len(),
        0 <= j < s.len(),
    ensures
        permutation_of(s.update(i, s[j]).update(j, s[i]), s),
{
    broadcast use vstd::multiset::group_multiset_axioms;

    let s1 = s.update(i, s[j]);
    assert(s1[j] == s[j]);
    assert(s1.to_multiset() == s.to_multiset().insert(s[j]).remove(s[i]));
    assert(s1.update(j, s[i]).to_multiset() == s1.to_multiset().insert(s[i]).remove(s[j]));
    assert(s1.update(j, s[i]).to_multiset() =~= s.to_multiset());
}

/// Two ascending sequences with the same multiset of values are equal.
pub proof fn lemma_sorted_permutation_unique(a: Seq<i32>, b: Seq<i32>)
    requires
        sorted(a),
        sorted(b),
        permutation_of(a, b),
    ensures
        a == b,
    decreases a.len(),
{
    assert(a.len() == a.to_multiset().len());
    assert(b.len() == b.to_multiset().len());
    if a.len() > 0 {
        assert(a.contains(a[0]));
        assert(b.to_multiset().count(a[0]) > 0);
        assert(b.contains(a[0]));
        let k = choose|k: int| 0 <= k < b.len() && b[k] == a[0];
        assert(b[0] <= a[0]);
        assert(b.contains(b[0]));
        assert(a.to_multiset().count(b[0]) > 0);
        assert(a.contains(b[0]));
        let m = choose|m: int| 0 <= m < a.len() && a[m] == b[0];
        assert(a[0] <= b[0]);
        let ra = a.remove(0);
        let rb = b.remove(0);
        assert(ra.to_multiset() == a.to_multiset().remove(a[0]));
        assert(rb.to_multiset() == b.to_multiset().remove(b[0]));
        assert(sorted(ra));
        assert(sorted(rb));
        lemma_sorted_permutation_unique(ra, rb);
        assert(a =~= seq![a[0]] + ra);
        assert(b =~= seq![b[0]] + rb);
    } else {
        assert(a =~= b);
    }
}

/// Rewriting the window `[lo, hi)` into a permutation of itself, and nothing
/// else, keeps every larger window a permutation of what it was.
pub proof fn lemma_window_permutation(a: Seq<i32>, b: Seq<i32>, lo: int, hi: int, lo2: int, hi2: int)
    requires
        0 <= lo2 <= lo <= hi <= hi2 <= a.len(),
        a.len() == b.len(),
        forall|k: int| 0 <= k < a.len() && !(lo <= k < hi) ==> a[k] == b[k],
        permutation_of(a.subrange(lo, hi), b.subrange(lo, hi)),
    ensures
        permutation_of(a.subrange(lo2, hi2), b.subrange(lo2, hi2)),
{
    let (a1, a2, a3) = (a.subrange(lo2, lo), a.subrange(lo, hi), a.subrange(hi, hi2));
    let (b1, b2, b3) = (b.subrange(lo2, lo), b.subrange(lo, hi), b.subrange(hi, hi2));
    assert(a1 =~= b1);
    assert(a3 =~= b3);
    assert(a.subrange(lo2, hi2) =~= (a1 + a2) + a3);
    assert(b.subrange(lo2, hi2) =~= (b1 + b2) + b3);
    vstd::seq_lib::lemma_multiset_commutative(a1, a2);
    vstd::seq_lib::lemma_multiset_commutative(a1 + a2, a3);
    vstd::seq_lib::lemma_multiset_commutative(b1, b2);
    vstd::seq_lib::lemma_multiset_commutative(b1 + b2, b3);
}

/// A bound that holds of every value in a window holds of every value in a
/// permutation of that window.
pub proof fn lemma_window_bounds(a: Seq<i32>, b: Seq<i32>, lo: int, hi: int, p: i32)
    requires
        0 <= lo <= hi <= a.len(),
        a.len() == b.len(),
        permutation_of(b.subrange(lo, hi), a.subrange(lo, hi)),
    ensures
        (forall|k: int| lo <= k < hi ==> a[k] <= p) ==> (forall|k: int| lo <= k < hi ==> b[k] <= p),
        (forall|k: int| lo <= k < hi ==> a[k] >= p) ==> (forall|k: int| lo <= k < hi ==> b[k] >= p),
{
    let sa = a.subrange(lo, hi);
    let sb = b.subrange(lo, hi);
    assert forall|k: int| #![trigger b[k]] lo <= k < hi implies exists|m: int|
        #![trigger a[m]]
        lo <= m < hi && a[m] == b[k] by {
        assert(sb[k - lo] == b[k]);
        assert(sb.contains(b[k]));
        assert(sa.to_multiset().count(b[k]) > 0);
        assert(sa.contains(b[k]));
        let i = choose|i: int| 0 <= i < sa.len() && sa[i] == b[k];
        assert(a[lo + i] == b[k]);
    }
}

/// Sorting is idempotent: whatever sorts `s` to `r1`, sorting `r1` again
/// yields `r1` unchanged.
pub proof fn lemma_sorting_idempotent(s: Seq<i32>, r1: Seq<i32>, r2: Seq<i32>)
    requires
        sorting_of(r1, s),
        sorting_of(r2, r1),
    ensures
        r2 == r1,
{
    lemma_sorted_permutation_unique(r2, r1);
}

/// A sorted result is determined by its input alone: any two sortings of the
/// same sequence are equal, so on plain integers a stable and an unstable
/// algorithm give the same output.
pub proof fn lemma_sorting_unique(s: Seq<i32>, r1: Seq<i32>, r2: Seq<i32>)
    requires
        sorting_of(r1, s),
        sorting_of(r2, s),
    ensures
        r1 == r2,
{
    lemma_sorted_permutation_unique(r1, r2);
}

/// Sorting an empty or one-element sequence yields it unchanged.
pub proof fn lemma_short_input_unchanged(s: Seq<i32>, r: Seq<i32>)
    requires
        s.len() <= 1,
        sorting_of(r, s),
    ensures
        r == s,
{
    lemma_sorted_permutation_unique(r, s);
}

} // verus!
