//! The hashing primitives the storage scheme and the address codec rest on.
//!
//! Each digest is named by an uninterpreted spec function: the outside
//! library computes it, and the contracts of the callers speak of the name.
//! Both hashes are pure functions of their input bytes alone.

use blake2::Digest;
use vstd::prelude::*;

verus! {

/// The 64-bit xxHash digest of `s` under the given seed.
pub uninterp spec fn xx64(seed: u64, s: Seq<u8>) -> u64;

/// The 64-byte Blake2b digest of `s`.
pub uninterp spec fn blake2b512_of(s: Seq<u8>) -> Seq<u8>;

/// The 16-byte Blake2b digest of `s`.
pub uninterp spec fn blake2b128_of(s: Seq<u8>) -> Seq<u8>;

/// Relies on twox_hash::XxHash64::oneshot: the seeded 64-bit xxHash of the
/// input bytes, a pure function of seed and bytes.
#[verifier::external_body]
pub(crate) fn xxhash64(seed: u64, data: &Vec<u8>) -> (r: u64)
    ensures
        r == xx64(seed, data@),
{
    twox_hash::XxHash64::oneshot(seed, data.as_slice())
}

/// Relies on blake2::Blake2b512 (through the Digest trait): the 64-byte
/// Blake2b digest of the input bytes, a pure function of them.
#[verifier::external_body]
pub(crate) fn blake2b_512(data: &Vec<u8>) -> (r: Vec<u8>)
    ensures
        r@ == blake2b512_of(data@),
        r@.len() == 64,
{
    blake2::Blake2b512::digest(data.as_slice()).to_vec()
}

/// Relies on blake2::Blake2b128 (through the Digest trait): the 16-byte
/// Blake2b digest of the input bytes, a pure function of them.
#[verifier::external_body]
pub(crate) fn blake2b_128(data: &Vec<u8>) -> (r: Vec<u8>)
    ensures
        r@ == blake2b128_of(data@),
        r@.len() == 16,
{
    blake2::Blake2b128::digest(data.as_slice()).to_vec()
}

} // verus!
