//! The hash, the generator and the text encoding that viewing keys are made
//! with. All three are computed by outside crates. Here each result has a
//! name; of the name nothing is assumed but that equal arguments give equal
//! results, and of a digest and of the generator's output their length.

use vstd::prelude::*;

verus! {

/// The number of bytes in a SHA-256 digest.
pub const SHA256_HASH_SIZE: usize = 32;

/// The SHA-256 digest of `data`.
pub uninterp spec fn sha_256_of(data: Seq<u8>) -> Seq<u8>;

/// The first 32 bytes that the generator seeded with `seed` and `entropy`
/// gives out.
pub uninterp spec fn prng_output(seed: Seq<u8>, entropy: Seq<u8>) -> Seq<u8>;

/// `data` in base64, standard alphabet with padding.
pub uninterp spec fn base64_of(data: Seq<u8>) -> Seq<char>;

/// Calls `sha_256` of `secret_toolkit_crypto`: the SHA-256 digest of
/// `data`, which has 32 bytes and depends on `data` alone.
#[verifier::external_body]
pub(crate) fn sha_256(data: &[u8]) -> (digest: Vec<u8>)
    ensures
        digest@ == sha_256_of(data@),
        digest@.len() == SHA256_HASH_SIZE,
{
    secret_toolkit_crypto::sha_256(data).to_vec()
}

/// Makes a `Prng` of `secret_toolkit_crypto` from `seed` and `entropy` and
/// calls its `rand_bytes` once: 32 bytes that depend on the two arguments
/// alone.
#[verifier::external_body]
pub(crate) fn prng_rand_bytes(seed: &[u8], entropy: &[u8]) -> (output: Vec<u8>)
    ensures
        output@ == prng_output(seed@, entropy@),
        output@.len() == 32,
{
    secret_toolkit_crypto::Prng::new(seed, entropy).rand_bytes().to_vec()
}

/// The longest input whose base64 text can be allocated: the text has four
/// characters for every three bytes, and no allocation is longer than
/// `isize::MAX`.
pub const MAX_BASE64_INPUT: usize = usize::MAX / 8 * 3;

/// Calls `encode` of `base64`: the text that stands for `data`, which
/// depends on `data` alone. The outside function panics where the length of
/// the text does not fit in `usize`, and the allocation of the text where it
/// does not fit in `isize`.
#[verifier::external_body]
pub(crate) fn base64_encode(data: &[u8]) -> (text: String)
    requires
        data@.len() <= MAX_BASE64_INPUT,
    ensures
        text@ == base64_of(data@),
{
    base64::encode(data)
}

} // verus!
