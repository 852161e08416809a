use vstd::prelude::*;

use rand::rngs::StdRng;
use rand::Rng;

verus! {

/// rand's standard generator, carried through the generator opaquely.
#[verifier::external_type_specification]
#[verifier::external_body]
pub struct ExStdRng(StdRng);

/// Relies on rand's `Rng::gen_range` (0.7): a value in `[low, high)`; it panics when `low >= high`.
#[verifier::external_body]
pub(crate) fn random_range(rng: &mut StdRng, low: i32, high: i32) -> (r: i32)
    requires
        low < high,
    ensures
        low <= r < high,
{
    rng.gen_range(low, high)
}

/// Relies on rand's `Rng::gen::<bool>`: a fair coin; nothing is known of the outcome.
#[verifier::external_body]
pub(crate) fn random_coin(rng: &mut StdRng) -> (r: bool) {
    rng.gen::<bool>()
}

} // verus!
