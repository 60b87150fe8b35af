//! Trusted boundary to the operating system's entropy source.

use rand::RngCore;
use vstd::prelude::*;

verus! {

/// Relies on `rand::rngs::OsRng::fill_bytes`: fills the buffer from the
/// operating system's cryptographically secure entropy source (panicking
/// only if that source is unavailable).  Nothing is promised of the
/// returned value; every caller must handle every possible outcome.
#[verifier::external_body]
pub(crate) fn random_u128() -> u128 {
    let mut buf = [0u8; 16];
    rand::rngs::OsRng.fill_bytes(&mut buf);
    u128::from_be_bytes(buf)
}

} // verus!
