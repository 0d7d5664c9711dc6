use rand::Rng;
use vstd::prelude::*;

verus! {

/// Relies on `rand::Rng::gen_range` (rand 0.7) on the thread-local generator:
/// for `low < high` it returns a value in `[low, high)`; it panics otherwise.
#[verifier::external_body]
pub(crate) fn draw_in(low: usize, high: usize) -> (r: usize)
    requires
        low < high,
    ensures
        low <= r < high,
{
    rand::thread_rng().gen_range(low, high)
}

} // verus!
