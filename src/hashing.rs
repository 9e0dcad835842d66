//! The digests that storage keys are built from.

use vstd::prelude::*;

verus! {

/// The 8-byte xxHash digest (seed 0) of a byte string.
pub uninterp spec fn twox_64_of(data: Seq<u8>) -> [u8; 8];

/// The 16-byte xxHash digest (seeds 0 and 1) of a byte string.
pub uninterp spec fn twox_128_of(data: Seq<u8>) -> [u8; 16];

/// The 16-byte Blake2b digest of a byte string.
pub uninterp spec fn blake2_128_of(data: Seq<u8>) -> [u8; 16];

/// The 32-byte Blake2b digest of a byte string.
pub uninterp spec fn blake2_256_of(data: Seq<u8>) -> [u8; 32];

/// Relies on `sp_crypto_hashing::twox_64`: an 8-byte digest of the data alone.
#[verifier::external_body]
pub(crate) fn twox_64(data: &[u8]) -> (r: [u8; 8])
    ensures
        r == twox_64_of(data@),
{
    sp_crypto_hashing::twox_64(data)
}

/// Relies on `sp_crypto_hashing::twox_128`: a 16-byte digest of the data alone.
#[verifier::external_body]
pub(crate) fn twox_128(data: &[u8]) -> (r: [u8; 16])
    ensures
        r == twox_128_of(data@),
{
    sp_crypto_hashing::twox_128(data)
}

/// Relies on `sp_crypto_hashing::blake2_128`: a 16-byte digest of the data alone.
#[verifier::external_body]
pub(crate) fn blake2_128(data: &[u8]) -> (r: [u8; 16])
    ensures
        r == blake2_128_of(data@),
{
    sp_crypto_hashing::blake2_128(data)
}

/// Relies on `sp_crypto_hashing::blake2_256`: a 32-byte digest of the data alone.
#[verifier::external_body]
pub(crate) fn blake2_256(data: &[u8]) -> (r: [u8; 32])
    ensures
        r == blake2_256_of(data@),
{
    sp_crypto_hashing::blake2_256(data)
}


/// The Blake2b-256 hasher of trie nodes.
pub struct Blake2Hasher;

impl Blake2Hasher {
    /// The 32-byte Blake2b digest of `x`.
    pub fn hash(x: &[u8]) -> (r: [u8; 32])
        ensures
            r == blake2_256_of(x@),
    {
        blake2_256(x)
    }
}

} // verus!
