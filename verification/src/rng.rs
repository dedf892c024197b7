//! The source of randomness: the thread-local generator of the `rand` crate,
//! reached through trusted declarations. Nothing is assumed of the values it
//! yields; every consumer in this crate is verified for all outcomes.
use vstd::prelude::*;

verus! {

/// The `rand` crate's thread-local generator handle, opaque to verification.
#[verifier::external_type_specification]
#[verifier::external_body]
pub struct ExThreadRng(rand::rngs::ThreadRng);

/// Relies on `rand::rng`: a handle to the thread-local generator. May panic
/// if the operating system's entropy source fails at first seeding.
#[verifier::external_body]
pub fn fresh_rng() -> rand::rngs::ThreadRng {
    rand::rng()
}

/// Relies on `rand_core::Rng::next_u64` as implemented for `ThreadRng`: the
/// next 64 random bits. Nothing is promised of the value.
#[verifier::external_body]
pub fn next_random(rng: &mut rand::rngs::ThreadRng) -> u64 {
    rand::Rng::next_u64(rng)
}

} // verus!
