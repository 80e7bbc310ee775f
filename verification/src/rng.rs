//! The one place where the library draws randomness.
use vstd::prelude::*;

verus! {

/// Relies on rand's `Rng::gen_range` over `low..high`: it panics only on an
/// empty range, and returns a value drawn from within the range.  Which
/// value comes back is left open.
#[verifier::external_body]
pub(crate) fn gen_range_usize(low: usize, high: usize) -> (r: usize)
    requires
        low < high,
    ensures
        low <= r < high,
{
    rand::Rng::gen_range(&mut rand::thread_rng(), low..high)
}

} // verus!
