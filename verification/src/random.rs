//! Random numbers, drawn by the `rand` crate.

use rand::rngs::StdRng;
use rand::{Rng, SeedableRng};
use vstd::prelude::*;

verus! {

/// The random number generator of the `rand` crate.
#[verifier::external_type_specification]
#[verifier::external_body]
pub struct ExStdRng(StdRng);

/// Makes a generator seeded by the operating system, with
/// `rand::SeedableRng::from_entropy`. Nothing is claimed of it.
#[verifier::external_body]
pub(crate) fn entropy_rng() -> StdRng {
    StdRng::from_entropy()
}

/// Draws a number below `n` with `rand::Rng::gen_range`.
///
/// Believed, not proved: the number lies in the range that was asked for.
/// Which one it is depends on chance.
#[verifier::external_body]
pub(crate) fn roll_below(rng: &mut StdRng, n: usize) -> (r: usize)
    requires
        n > 0,
    ensures
        r < n,
{
    rng.gen_range(0..n)
}

} // verus!
