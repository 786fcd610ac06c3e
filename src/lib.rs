//! Five classical in-place sorting algorithms over `Vec<i32>`, each proved to
//! leave its input ascending and a permutation of what it was, together with
//! the generator of random input and the choice of algorithm by code.

pub mod order;
pub mod selection;
pub mod insertion;
pub mod quick;
pub mod merge;
pub mod bubble;
pub mod random;
pub mod options;

pub use selection::selection_sort;
pub use insertion::insertion_sort;
pub use quick::quick_sort;
pub use merge::merge_sort;
pub use bubble::bubble_sort;
pub use random::create_random_vector;
pub use options::{Options, Algorithm, algorithm_from_code, sort_with};
