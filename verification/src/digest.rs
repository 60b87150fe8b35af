//! Trusted boundary to the SHA-512 implementation of the `sha2` crate.

use sha2::Digest;
use vstd::prelude::*;

verus! {

/// The SHA-512 digest of a byte sequence.  The value is named, never
/// defined: everything the crate knows about it comes from the contract
/// of `sha512` below.
pub uninterp spec fn sha512_of(data: Seq<u8>) -> Seq<u8>;

/// Relies on `sha2::Sha512` (through the `digest` crate's `Digest`
/// trait): the digest is a pure function of the input bytes alone and is
/// always 64 bytes long.
#[verifier::external_body]
pub(crate) fn sha512(data: &Vec<u8>) -> (r: Vec<u8>)
    ensures
        r@ == sha512_of(data@),
        r@.len() == 64,
{
    let mut hasher = sha2::Sha512::new();
    hasher.update(data.as_slice());
    hasher.finalize().to_vec()
}

} // verus!
