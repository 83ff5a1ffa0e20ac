//! Trusted wrappers around the MurmurHash3 implementations of the `mur3`
//! crate. Both hashes are pure functions of the input bytes and the seed, so
//! their results are given names that the rest of the library reasons with.

use vstd::prelude::*;

verus! {

/// The 32-bit MurmurHash3 (x86 variant) of `bytes` under `seed`.
pub uninterp spec fn murmur3_x86_32_of(bytes: Seq<u8>, seed: u32) -> u32;

/// The low 64 bits of the 128-bit MurmurHash3 (x64 variant) of `bytes` under `seed`.
pub uninterp spec fn murmur3_x64_128_low_of(bytes: Seq<u8>, seed: u32) -> u64;

/// Relies on `mur3::murmurhash3_x86_32`: the hash depends on the bytes and
/// the seed alone.
#[verifier::external_body]
pub fn murmur3_x86_32(bytes: &[u8], seed: u32) -> (r: u32)
    ensures
        r == murmur3_x86_32_of(bytes@, seed),
{
    mur3::murmurhash3_x86_32(bytes, seed)
}

/// Relies on `mur3::murmurhash3_x64_128`: the hash depends on the bytes and
/// the seed alone. Only the first half of the 128-bit result is returned.
#[verifier::external_body]
pub fn murmur3_x64_128_low(bytes: &[u8], seed: u32) -> (r: u64)
    ensures
        r == murmur3_x64_128_low_of(bytes@, seed),
{
    mur3::murmurhash3_x64_128(bytes, seed).0
}

/// The bytes `bincode` encodes a `u64` to under its standard
/// configuration.
pub uninterp spec fn bincode_u64_of(v: u64) -> Seq<u8>;

/// Relies on `bincode::encode_to_vec` with the standard configuration: the
/// encoding depends on the value alone. Encoding an integer to a vector
/// cannot fail — the only fallible step is the writer, and both the
/// size-counting and the vector writers always succeed — so the result is
/// total.
#[verifier::external_body]
pub fn bincode_encode_u64(v: u64) -> (r: Vec<u8>)
    ensures
        r@ == bincode_u64_of(v),
{
    bincode::encode_to_vec(v, bincode::config::standard()).unwrap()
}

} // verus!
