//! Viewing keys: how one is made, what is kept of it, and how a presented
//! key is compared with what was kept.

use crate::bytes::{append_bytes, be64, u64_to_be};
use crate::crypto::{base64_encode, base64_of, prng_output, prng_rand_bytes, sha_256, sha_256_of};
use crate::types::Env;
use vstd::prelude::*;
use vstd::string::StringExecFns;
use vstd::utf8::encode_utf8;

verus! {

/// The number of bytes kept of a viewing key: those of its SHA-256 digest.
pub const VIEWING_KEY_SIZE: usize = 32;

/// What every viewing key starts with.
pub const VIEWING_KEY_PREFIX: &'static str = "api_key_";

/// A viewing key: the secret text that lets its holder read one account's
/// messages.
#[derive(Clone, Debug, PartialEq, Eq)]
pub struct ViewingKey(pub String);

/// The outcome of comparing two byte strings, with the number of byte pairs
/// that were looked at.
#[derive(Clone, Copy, Debug, PartialEq, Eq)]
pub struct Comparison {
    pub equal: bool,
    pub steps: usize,
}

/// What is kept of a viewing key: the digest of its text.
pub open spec fn hashed(key: Seq<char>) -> Seq<u8> {
    sha_256_of(encode_utf8(key))
}

/// The bytes that the generator is given besides the seed, to make a key
/// for the sender of a request: block height, block time, the sender's
/// address and the entropy that the sender chose.
pub open spec fn issuance_entropy(env: Env, entropy: Seq<u8>) -> Seq<u8> {
    be64(env.block.height) + be64(env.block.time) + encode_utf8(env.message.sender.address.0@)
        + entropy
}

/// The text of the key that is made for the sender of a request.
pub open spec fn issued_key(env: Env, seed: Seq<u8>, entropy: Seq<u8>) -> Seq<char> {
    VIEWING_KEY_PREFIX@ + base64_of(sha_256_of(prng_output(seed, issuance_entropy(env, entropy))))
}

/// The number of byte pairs that a comparison of `s1` and `s2` looks at:
/// all of them where the lengths agree, none where they do not. The bytes
/// themselves have no say in it.
pub open spec fn comparison_steps(s1: Seq<u8>, s2: Seq<u8>) -> nat {
    if s1.len() == s2.len() {
        s1.len()
    } else {
        0
    }
}

/// Compares two byte strings without stopping at the first difference, and
/// counts the byte pairs looked at.
pub fn ct_slice_compare_counted(s1: &[u8], s2: &[u8]) -> (outcome: Comparison)
    ensures
        outcome.equal == (s1@ == s2@),
        outcome.steps == comparison_steps(s1@, s2@),
{
    if s1.len() != s2.len() {
        return Comparison { equal: false, steps: 0 };
    }
    let mut difference: u8 = 0;
    let mut i: usize = 0;
    while i < s1.len()
        invariant
            s1@.len() == s2@.len(),
            i <= s1@.len(),
            difference == 0 <==> s1@.subrange(0, i as int) =~= s2@.subrange(0, i as int),
        decreases s1@.len() - i,
    {
        let x: u8 = s1[i];
        let y: u8 = s2[i];
        let next: u8 = difference | (x ^ y);
        assert(next == 0 <==> (difference == 0 && x == y)) by (bit_vector)
            requires
                next == difference | (x ^ y),
        ;
        proof {
            let a = s1@.subrange(0, i as int);
            let b = s2@.subrange(0, i as int);
            let a1 = s1@.subrange(0, i as int + 1);
            let b1 = s2@.subrange(0, i as int + 1);
            assert(a1 =~= a.push(x));
            assert(b1 =~= b.push(y));
            if a1 == b1 {
                assert(a1.drop_last() =~= a);
                assert(b1.drop_last() =~= b);
                assert(a1.last() == x);
                assert(b1.last() == y);
            }
        }
        difference = next;
        i = i + 1;
    }
    assert(s1@.subrange(0, i as int) =~= s1@);
    assert(s2@.subrange(0, i as int) =~= s2@);
    Comparison { equal: difference == 0, steps: i }
}

/// Whether two byte strings are equal, found without stopping at the first
/// difference.
pub fn ct_slice_compare(s1: &[u8], s2: &[u8]) -> (equal: bool)
    ensures
        equal == (s1@ == s2@),
{
    ct_slice_compare_counted(s1, s2).equal
}

/// What is kept of the key with text `s1`.
pub fn create_hashed_password(s1: &str) -> (digest: Vec<u8>)
    ensures
        digest@ == hashed(s1@),
        digest@.len() == VIEWING_KEY_SIZE,
{
    sha_256(s1.as_bytes())
}

impl ViewingKey {
    /// Makes the key for the sender of a request from the contract's seed,
    /// the block, the sender's address and the entropy that the sender chose.
    pub fn new(env: &Env, seed: &[u8], entropy: &[u8]) -> (key: Self)
        ensures
            key.0@ == issued_key(*env, seed@, entropy@),
    {
        let mut rng_entropy: Vec<u8> = u64_to_be(env.block.height);
        let time: Vec<u8> = u64_to_be(env.block.time);
        append_bytes(&mut rng_entropy, time.as_slice());
        append_bytes(&mut rng_entropy, env.message.sender.address.0.as_str().as_bytes());
        append_bytes(&mut rng_entropy, entropy);
        let rand_slice: Vec<u8> = prng_rand_bytes(seed, rng_entropy.as_slice());
        let key: Vec<u8> = sha_256(rand_slice.as_slice());
        let text: String = base64_encode(key.as_slice());
        ViewingKey(String::from_str(VIEWING_KEY_PREFIX).concat(text.as_str()))
    }

    /// Whether this key is the one that `hashed_pw` was kept of. Takes the
    /// same steps whatever the two hold.
    pub fn check_viewing_key(&self, hashed_pw: &[u8]) -> (matches: bool)
        ensures
            matches == (hashed(self.0@) == hashed_pw@),
    {
        self.check_viewing_key_counted(hashed_pw).equal
    }

    /// Like `check_viewing_key`, and counts the byte pairs compared.
    pub fn check_viewing_key_counted(&self, hashed_pw: &[u8]) -> (outcome: Comparison)
        ensures
            outcome.equal == (hashed(self.0@) == hashed_pw@),
            outcome.steps == comparison_steps(hashed(self.0@), hashed_pw@),
            hashed_pw@.len() == VIEWING_KEY_SIZE ==> outcome.steps == VIEWING_KEY_SIZE,
    {
        let mine_hashed: Vec<u8> = create_hashed_password(self.0.as_str());
        ct_slice_compare_counted(mine_hashed.as_slice(), hashed_pw)
    }

    /// What is kept of this key.
    pub fn to_hashed(&self) -> (digest: Vec<u8>)
        ensures
            digest@ == hashed(self.0@),
            digest@.len() == VIEWING_KEY_SIZE,
    {
        create_hashed_password(self.0.as_str())
    }

    /// The bytes of the key's text.
    pub fn as_bytes(&self) -> (bytes: &[u8])
        ensures
            bytes@ == encode_utf8(self.0@),
    {
        self.0.as_str().as_bytes()
    }

    /// The key's text.
    pub fn to_string(&self) -> (text: String)
        ensures
            text@ == self.0@,
    {
        self.0.clone()
    }
}

} // verus!
