use vstd::prelude::*;

use rand::Rng;

verus! {

/// Relies on rand's `Rng::gen_range(low, high)` on the thread-local generator:
/// it asserts `low < high` and returns a value in `[low, high)`.
#[verifier::external_body]
pub(crate) fn random_index(n: usize) -> (r: usize)
    requires
        n > 0,
    ensures
        r < n,
{
    rand::thread_rng().gen_range(0, n)
}

/// Relies on rand's `seq::sample_iter` over the positions `0..n`: it returns
/// `Ok` with `amount` of the iterator's elements, none taken twice, when the
/// iterator yields at least `amount` of them, and `Err` otherwise.
#[verifier::external_body]
pub(crate) fn random_distinct_indices(n: usize, amount: usize) -> (r: Vec<usize>)
    requires
        amount <= n,
    ensures
        r@.len() == amount,
        forall|i: int| 0 <= i < r@.len() ==> #[trigger] r@[i] < n,
        forall|i: int, j: int| 0 <= i < j < r@.len() ==> r@[i] != r@[j],
{
    match rand::seq::sample_iter(&mut rand::thread_rng(), 0..n, amount) {
        Ok(v) => v,
        Err(v) => v,
    }
}

} // verus!
