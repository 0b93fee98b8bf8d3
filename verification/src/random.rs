//! The random numbers that benchmarks and tree generation draw, from `rand`.
//! Generators are seeded from the operating system through the fallible
//! `SeedableRng::from_rng(OsRng)`, so a missing entropy source is an error,
//! not a panic.

use rand::rngs::{OsRng, SmallRng, StdRng};
use rand::{Rng, RngCore, SeedableRng};
use vstd::prelude::*;

verus! {

/// `rand`'s standard generator, carried through opaquely.
#[verifier::external_type_specification]
#[verifier::external_body]
pub struct ExStdRng(StdRng);

/// `rand`'s small fast generator, carried through opaquely.
#[verifier::external_type_specification]
#[verifier::external_body]
pub struct ExSmallRng(SmallRng);

/// The error that `rand` reports when the system gives no entropy.
#[verifier::external_type_specification]
#[verifier::external_body]
pub struct ExRandError(rand::Error);

/// Why no random numbers could be drawn.
#[derive(Debug)]
pub enum RandomSourceError {
    /// The operating system's entropy source failed; `rand`'s report is kept.
    NoEntropy(rand::Error),
}

/// Calls `StdRng::from_rng(OsRng)`: a standard generator seeded from the
/// operating system, or the error that the system reported. Nothing is
/// stated of the generator's state or of when the system fails.
#[verifier::external_body]
pub(crate) fn std_rng_from_os() -> Result<StdRng, rand::Error> {
    StdRng::from_rng(OsRng)
}

/// Calls `Rng::gen_range(0..bound)` on a `StdRng`, which the crate documents
/// as a uniform sample of the half-open range and as panicking on an empty
/// range; only the range of the result is stated, the value depends on chance.
#[verifier::external_body]
pub(crate) fn random_below(rng: &mut StdRng, bound: usize) -> (r: usize)
    requires
        bound > 0,
    ensures
        r < bound,
{
    rng.gen_range(0..bound)
}

/// Calls `SmallRng::from_rng(OsRng)`: a small generator seeded from the
/// operating system, or the error that the system reported. Nothing is
/// stated of the generator's state or of when the system fails.
#[verifier::external_body]
pub(crate) fn small_rng_from_os() -> Result<SmallRng, rand::Error> {
    SmallRng::from_rng(OsRng)
}

/// Calls `RngCore::fill_bytes` on a 32-byte buffer: 32 random bytes, of which
/// nothing is stated.
#[verifier::external_body]
pub(crate) fn random_element_bytes(rng: &mut SmallRng) -> [u8; 32] {
    let mut element = [0u8; 32];
    rng.fill_bytes(&mut element);
    element
}

} // verus!
