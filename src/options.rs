//! Run options and the choice of algorithm by its one-letter code.

use vstd::prelude::*;
use crate::order::{sorted, sorting_of};
use crate::selection::selection_sort;
use crate::insertion::insertion_sort;
use crate::quick::quick_sort;
use crate::merge::merge_sort;
use crate::bubble::bubble_sort;

verus! {

/// What a run asks for: how many values to generate and which algorithm
/// code to sort them with.
#[derive(Debug)]
pub struct Options {
    pub size: usize,
    pub algorithm: String,
}

impl Options {
    /// Bundles a size and an algorithm code.
    pub fn build(size: usize, algorithm: String) -> (r: Options)
        ensures
            r.size == size,
            r.algorithm@ == algorithm@,
    {
        Options { size, algorithm }
    }
}

/// The five sorting algorithms.
#[derive(PartialEq, Eq, Structural, Debug, Clone, Copy)]
pub enum Algorithm {
    Selection,
    Quick,
    Insertion,
    Merge,
    Bubble,
}

/// The algorithm that a code names: `s`, `q`, `i`, `m` or `b`; any other
/// code names none.
pub open spec fn algorithm_of(code: Seq<char>) -> Option<Algorithm> {
    if code.len() != 1 {
        None
    } else if code[0] == 's' {
        Some(Algorithm::Selection)
    } else if code[0] == 'q' {
        Some(Algorithm::Quick)
    } else if code[0] == 'i' {
        Some(Algorithm::Insertion)
    } else if code[0] == 'm' {
        Some(Algorithm::Merge)
    } else if code[0] == 'b' {
        Some(Algorithm::Bubble)
    } else {
        None
    }
}

/// Reads an algorithm code; `None` for a code that names no algorithm.
pub fn algorithm_from_code(code: &str) -> (r: Option<Algorithm>)
    ensures
        r == algorithm_of(code@),
{
    if code.unicode_len() != 1 {
        return None;
    }
    let c = code.get_char(0);
    if c == 's' {
        Some(Algorithm::Selection)
    } else if c == 'q' {
        Some(Algorithm::Quick)
    } else if c == 'i' {
        Some(Algorithm::Insertion)
    } else if c == 'm' {
        Some(Algorithm::Merge)
    } else if c == 'b' {
        Some(Algorithm::Bubble)
    } else {
        None
    }
}

/// Sorts the whole of `vector` ascending with the chosen algorithm.
pub fn sort_with(algorithm: Algorithm, vector: &mut Vec<i32>)
    ensures
        final(vector)@.len() == old(vector)@.len(),
        sorting_of(final(vector)@, old(vector)@),
        sorted(old(vector)@) ==> final(vector)@ == old(vector)@,
{
    match algorithm {
        Algorithm::Selection => selection_sort(vector),
        Algorithm::Quick => {
            let size = vector.len();
            if size > 0 {
                quick_sort(vector, 0, size - 1);
                assert(vector@.subrange(0, size as int) =~= vector@);
                assert(old(vector)@.subrange(0, size as int) =~= old(vector)@);
            }
        },
        Algorithm::Insertion => insertion_sort(vector),
        Algorithm::Merge => merge_sort(vector),
        Algorithm::Bubble => bubble_sort(vector),
    }
}

} // verus!
