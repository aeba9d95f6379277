//! The random number generator that the service shares with whatever sends
//! requests on its behalf.

use rand::rngs::StdRng;
use rand::SeedableRng;
use vstd::prelude::*;

verus! {

/// `rand::rngs::StdRng`, the generator of the `rand` crate. It is carried
/// through as it is: nothing is known of what is inside.
#[verifier::external_type_specification]
#[verifier::external_body]
pub struct ExStdRng(StdRng);

/// Draws a seed from the thread's generator, through `rand::random`. Nothing
/// is claimed of the number that comes back: it differs from call to call.
/// The thread's generator is seeded by the operating system when a thread
/// first uses it, and `rand` gives up where the system has no randomness to
/// give.
#[verifier::external_body]
pub(crate) fn random_seed() -> (seed: u64) {
    rand::random::<u64>()
}

/// Makes a generator from `seed`, through `StdRng::seed_from_u64` (a method
/// of `rand::SeedableRng`), which accepts every seed. Nothing is claimed of
/// the generator that comes back.
#[verifier::external_body]
pub(crate) fn rng_from_seed(seed: u64) -> (rng: StdRng) {
    StdRng::seed_from_u64(seed)
}

} // verus!
