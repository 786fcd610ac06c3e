//! Generation of the pseudo-random input sequence.

use vstd::prelude::*;
use rand::Rng;

verus! {

/// Values of a generated sequence lie in `[0, RANDOM_BOUND)`.
pub const RANDOM_BOUND: i32 = 100;

#[verifier::external_type_specification]
#[verifier::external_body]
pub struct ExThreadRng(rand::rngs::ThreadRng);

/// Relies on rand::thread_rng: a handle on the generator of the current thread.
pub assume_specification[ rand::thread_rng ]() -> rand::rngs::ThreadRng;

/// Relies on rand::Rng::gen_range over `low..high`: a value drawn from
/// `[low, high)`; the call panics on an empty range, which `requires` excludes.
#[verifier::external_body]
fn gen_in_range(rng: &mut rand::rngs::ThreadRng, low: i32, high: i32) -> (r: i32)
    requires
        low < high,
    ensures
        low <= r < high,
{
    rng.gen_range(low..high)
}

/// Returns `size` pseudo-random integers, each in `[0, RANDOM_BOUND)`.
pub fn create_random_vector(size: usize) -> (r: Vec<i32>)
    ensures
        r@.len() == size,
        forall|i: int| 0 <= i < size ==> 0 <= #[trigger] r@[i] < RANDOM_BOUND,
{
    let mut rng = rand::thread_rng();
    let mut random_vector: Vec<i32> = Vec::new();
    let mut i: usize = 0;
    while i < size
        invariant
            i <= size,
            random_vector@.len() == i,
            forall|k: int| 0 <= k < i ==> 0 <= #[trigger] random_vector@[k] < RANDOM_BOUND,
        decreases size - i,
    {
        let value = gen_in_range(&mut rng, 0, RANDOM_BOUND);
        random_vector.push(value);
        i += 1;
    }
    random_vector
}

} // verus!
