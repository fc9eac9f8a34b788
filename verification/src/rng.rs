//! Trusted boundary to the `rand` crate: the pseudorandom draws that drive
//! damage resolution. Everything else in the library is verified against the
//! contracts stated here.

use vstd::prelude::*;
use rand::Rng;
use rand::SeedableRng;
use rand::rngs::StdRng;

verus! {

#[verifier::external_type_specification]
#[verifier::external_body]
pub struct ExStdRng(StdRng);

/// Relies on rand's `SeedableRng::seed_from_u64`: builds a generator from a
/// `u64` seed, so runs are reproducible. Nothing is claimed of the generator's
/// state.
#[verifier::external_body]
pub(crate) fn seed_rng(seed: u64) -> StdRng {
    StdRng::seed_from_u64(seed)
}

/// Relies on rand's `Rng::gen::<bool>`: a uniform coin flip. Nothing can be
/// promised of the value drawn; callers state what holds of either outcome.
#[verifier::external_body]
pub(crate) fn draw_bool(generator: &mut StdRng) -> bool {
    generator.gen::<bool>()
}

/// Relies on rand's `Rng::gen_range`, which returns a uniform value inside
/// the range it is given; here the inclusive shield-roll range `1..=10`.
#[verifier::external_body]
pub(crate) fn draw_shield_roll(generator: &mut StdRng) -> (r: usize)
    ensures
        1 <= r <= 10,
{
    generator.gen_range(1usize..=10)
}

} // verus!
