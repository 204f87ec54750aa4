//! The source of randomness. Scattering and lens sampling draw uniform
//! fixed-point scalars from a thread-local generator handle that every
//! sampling function takes explicitly, so the rest of the library is a
//! deterministic function of its inputs and the drawn values.

use vstd::prelude::*;
use crate::fixed::FX_ONE;
use rand::RngExt;

verus! {

#[verifier::external_type_specification]
#[verifier::external_body]
pub struct ExThreadRng(rand::rngs::ThreadRng);

/// Relies on rand::rng: it hands out a handle to the thread-local
/// generator (and aborts only if the system's entropy source fails at
/// first seeding).
#[verifier::external_body]
pub fn new_rng() -> rand::rngs::ThreadRng {
    rand::rng()
}

/// Relies on rand::RngExt::random_range over an `i64` half-open range: the
/// result is uniformly distributed in `[lo, hi)`; the call panics only on
/// an empty range, which the precondition rules out.
#[verifier::external_body]
fn rand_range(rng: &mut rand::rngs::ThreadRng, lo: i64, hi: i64) -> (r: i64)
    requires
        lo < hi,
    ensures
        lo <= r < hi,
{
    rng.random_range(lo..hi)
}

/// A uniform fixed-point scalar in `[0, 1)`.
pub fn random_fx(rng: &mut rand::rngs::ThreadRng) -> (r: i64)
    ensures
        0 <= r < FX_ONE,
{
    rand_range(rng, 0, FX_ONE)
}

/// A uniform fixed-point scalar in `[lo, hi)`.
pub fn random_fx_bounded(rng: &mut rand::rngs::ThreadRng, lo: i64, hi: i64) -> (r: i64)
    requires
        lo < hi,
    ensures
        lo <= r < hi,
{
    rand_range(rng, lo, hi)
}

} // verus!
