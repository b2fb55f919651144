//! The pseudo-random source for the random-mask instruction. The draw is
//! behind a trusted boundary; everything downstream of the drawn byte is
//! verified for every possible value (`step_with_random`), which also gives
//! tests a deterministic, seedable path.

use vstd::prelude::*;

verus! {

/// Relies on rand::thread_rng and rand::Rng::gen_range: draws one byte from
/// the process-wide thread-local generator. Nothing can be promised of a
/// random value, so nothing is; callers state what holds of every byte.
#[verifier::external_body]
pub(crate) fn random_byte() -> u8 {
    rand::Rng::gen_range(&mut rand::thread_rng(), 0..=255u8)
}

} // verus!
