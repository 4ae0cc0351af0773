//! The random pause that the server and its readers take before reading.

use rand::Rng;
use vstd::prelude::*;

verus! {

/// A random byte.
///
/// Trusted: `rand::thread_rng().gen::<u8>()` from `rand`, a uniformly drawn
/// byte from the thread-local generator. Nothing is claimed of the value:
/// it depends on chance.
#[verifier::external_body]
fn random_byte() -> u8 {
    rand::thread_rng().gen::<u8>()
}

/// The pause, in milliseconds, for a drawn byte: as many milliseconds as
/// the byte's value.
pub fn delay_for_byte(b: u8) -> (ms: u64)
    ensures
        ms == b as u64,
{
    b as u64
}

/// A random pause in milliseconds, drawn as one random byte: under 256.
pub fn random_delay_ms() -> (ms: u64)
    ensures
        ms < 256,
{
    let b = random_byte();
    delay_for_byte(b)
}

} // verus!
