use rand::Rng;
use vstd::prelude::*;

verus! {

/// Relies on `rand::thread_rng` and `Rng::gen_range` (rand 0.8): a value drawn
/// from the half-open range `low..high`, which must not be empty.
#[verifier::external_body]
pub(crate) fn random_in_range(low: u128, high: u128) -> (r: u128)
    requires
        low < high,
    ensures
        low <= r < high,
{
    rand::thread_rng().gen_range(low..high)
}

} // verus!
