//! Randomness, for serial numbers and blinding factors.

use rand::Rng;
use vstd::prelude::*;

verus! {

/// Relies on `rand::Rng::fill` on the thread-local generator: `len` random bytes.
#[verifier::external_body]
pub(crate) fn random_bytes(len: usize) -> (r: Vec<u8>)
    ensures
        r@.len() == len,
{
    let mut bytes = vec![0u8; len];
    rand::thread_rng().fill(&mut bytes[..]);
    bytes
}

} // verus!
