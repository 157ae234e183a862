//! Where each record lives in the store.
//!
//! Every key starts with a length-prefixed namespace, so that the records of
//! one kind, and within the logs the records of one account, can never be
//! mistaken for those of another.

use crate::bytes::{append_bytes, be32, lemma_be32_injective, lemma_be32_round_trip, u32_to_be};
use vstd::prelude::*;

verus! {

/// The key of the configuration record: `config`.
pub const CONFIG_KEY: [u8; 6] = [99, 111, 110, 102, 105, 103];

/// The namespace of the message logs: `messages_received`.
pub const PREFIX_MSGS_RECEIVED: [u8; 17] = [
    109, 101, 115, 115, 97, 103, 101, 115, 95, 114, 101, 99, 101, 105, 118, 101, 100,
];

/// The namespace of the viewing key records: `viewingkey`.
pub const PREFIX_VIEWING_KEY: [u8; 10] = [118, 105, 101, 119, 105, 110, 103, 107, 101, 121];

/// Within a log, the key of its length record: `len`.
pub const LEN_KEY: [u8; 3] = [108, 101, 110];

/// The longest namespace that a two-byte length prefix can describe.
pub const MAX_NAMESPACE_LEN: usize = 0xFFFF;

/// A namespace behind its own length, written as two bytes, most significant
/// first.
pub open spec fn length_prefixed(namespace: Seq<u8>) -> Seq<u8> {
    seq![(namespace.len() / 0x100) as u8, (namespace.len() % 0x100) as u8] + namespace
}

/// What every key of the log of `account` starts with.
pub open spec fn log_prefix(account: Seq<u8>) -> Seq<u8> {
    length_prefixed(PREFIX_MSGS_RECEIVED@) + length_prefixed(account)
}

/// The key under which the log of `account` keeps its length.
pub open spec fn log_len_key(account: Seq<u8>) -> Seq<u8> {
    log_prefix(account) + LEN_KEY@
}

/// The key under which the log of `account` keeps its entry number `index`.
pub open spec fn log_item_key(account: Seq<u8>, index: u32) -> Seq<u8> {
    log_prefix(account) + be32(index)
}

/// The key under which the viewing key record of `account` is kept.
pub open spec fn viewing_key_key(account: Seq<u8>) -> Seq<u8> {
    length_prefixed(PREFIX_VIEWING_KEY@) + account
}

/// Whether `key` belongs to the log of `account`.
pub open spec fn is_log_key(key: Seq<u8>, account: Seq<u8>) -> bool {
    key == log_len_key(account) || exists|index: u32| key == log_item_key(account, index)
}

/// Calls `to_length_prefixed` of `secret_cosmwasm_storage`: the namespace
/// behind its length as two big-endian bytes. The outside function panics on
/// a namespace longer than `0xFFFF` bytes.
#[verifier::external_body]
pub(crate) fn to_length_prefixed(namespace: &[u8]) -> (key: Vec<u8>)
    requires
        namespace@.len() <= MAX_NAMESPACE_LEN,
    ensures
        key@ == length_prefixed(namespace@),
{
    secret_cosmwasm_storage::to_length_prefixed(namespace)
}

/// Calls `to_length_prefixed_nested` of `secret_cosmwasm_storage` on two
/// namespaces: each behind its own two-byte length, the outer one first. The
/// outside function panics on a namespace longer than `0xFFFF` bytes.
#[verifier::external_body]
pub(crate) fn to_length_prefixed_nested(outer: &[u8], inner: &[u8]) -> (key: Vec<u8>)
    requires
        outer@.len() <= MAX_NAMESPACE_LEN,
        inner@.len() <= MAX_NAMESPACE_LEN,
    ensures
        key@ == length_prefixed(outer@) + length_prefixed(inner@),
{
    secret_cosmwasm_storage::to_length_prefixed_nested(&[outer, inner])
}

/// Builds the key of the length record of the log of `account`.
pub fn make_log_len_key(account: &[u8]) -> (key: Vec<u8>)
    requires
        account@.len() <= MAX_NAMESPACE_LEN,
    ensures
        key@ == log_len_key(account@),
{
    let mut key: Vec<u8> = to_length_prefixed_nested(PREFIX_MSGS_RECEIVED.as_slice(), account);
    append_bytes(&mut key, LEN_KEY.as_slice());
    key
}

/// Builds the key of entry number `index` of the log of `account`.
pub fn make_log_item_key(account: &[u8], index: u32) -> (key: Vec<u8>)
    requires
        account@.len() <= MAX_NAMESPACE_LEN,
    ensures
        key@ == log_item_key(account@, index),
{
    let mut key: Vec<u8> = to_length_prefixed_nested(PREFIX_MSGS_RECEIVED.as_slice(), account);
    let position: Vec<u8> = u32_to_be(index);
    append_bytes(&mut key, position.as_slice());
    key
}

/// Builds the key of the viewing key record of `account`.
pub fn make_viewing_key_key(account: &[u8]) -> (key: Vec<u8>)
    ensures
        key@ == viewing_key_key(account@),
{
    let mut key: Vec<u8> = to_length_prefixed(PREFIX_VIEWING_KEY.as_slice());
    append_bytes(&mut key, account);
    key
}

/// The logs of two accounts share no key: whatever follows the prefix, keys
/// under the prefixes of different accounts differ.
pub proof fn lemma_log_prefixes_disjoint(a: Seq<u8>, b: Seq<u8>, s: Seq<u8>, t: Seq<u8>)
    requires
        a != b,
        a.len() <= MAX_NAMESPACE_LEN,
        b.len() <= MAX_NAMESPACE_LEN,
    ensures
        log_prefix(a) + s != log_prefix(b) + t,
{
    let k1 = log_prefix(a) + s;
    let k2 = log_prefix(b) + t;
    if k1 == k2 {
        assert(k1[19] == (a.len() / 0x100) as u8);
        assert(k2[19] == (b.len() / 0x100) as u8);
        assert(k1[20] == (a.len() % 0x100) as u8);
        assert(k2[20] == (b.len() % 0x100) as u8);
        assert(a.len() == b.len());
        assert forall|i: int| 0 <= i < a.len() implies a[i] == b[i] by {
            assert(k1[21 + i] == a[i]);
            assert(k2[21 + i] == b[i]);
        }
        assert(a =~= b);
    }
}

/// No key of the log of `a` is a key of the log of another account `b`.
pub proof fn lemma_log_keys_disjoint(a: Seq<u8>, b: Seq<u8>, key: Seq<u8>)
    requires
        a != b,
        a.len() <= MAX_NAMESPACE_LEN,
        b.len() <= MAX_NAMESPACE_LEN,
        is_log_key(key, a),
    ensures
        !is_log_key(key, b),
{
    if key == log_len_key(a) {
        lemma_log_prefixes_disjoint(a, b, LEN_KEY@, LEN_KEY@);
        assert forall|j: u32| key != log_item_key(b, j) by {
            lemma_log_prefixes_disjoint(a, b, LEN_KEY@, be32(j));
        }
    } else {
        let i = choose|i: u32| key == log_item_key(a, i);
        lemma_log_prefixes_disjoint(a, b, be32(i), LEN_KEY@);
        assert forall|j: u32| key != log_item_key(b, j) by {
            lemma_log_prefixes_disjoint(a, b, be32(i), be32(j));
        }
    }
}

/// Within one log, the length record and the entries have different keys,
/// and so have two entries with different numbers.
pub proof fn lemma_log_keys_distinct(account: Seq<u8>, i: u32, j: u32)
    ensures
        log_len_key(account) != log_item_key(account, i),
        i != j ==> log_item_key(account, i) != log_item_key(account, j),
{
    lemma_be32_round_trip(i);
    lemma_be32_round_trip(j);
    let p = log_prefix(account);
    assert(log_len_key(account).len() == p.len() + 3);
    assert(log_item_key(account, i).len() == p.len() + 4);
    if i != j && log_item_key(account, i) == log_item_key(account, j) {
        assert(be32(i) =~= (p + be32(i)).subrange(p.len() as int, p.len() as int + 4));
        assert(be32(j) =~= (p + be32(j)).subrange(p.len() as int, p.len() as int + 4));
        lemma_be32_injective(i, j);
    }
}

/// A viewing key record never shares its key with a log or with the
/// configuration, and the logs never use the configuration's key.
pub proof fn lemma_record_kinds_disjoint(account: Seq<u8>, other: Seq<u8>, key: Seq<u8>)
    requires
        is_log_key(key, other),
    ensures
        key != viewing_key_key(account),
        key != CONFIG_KEY@,
        viewing_key_key(account) != CONFIG_KEY@,
{
    assert(viewing_key_key(account)[1] == 10u8);
    assert(viewing_key_key(account)[0] == 0u8);
    assert(CONFIG_KEY@[0] == 99u8);
    if key == log_len_key(other) {
        assert(key[1] == 17u8);
        assert(key[0] == 0u8);
    } else {
        let i = choose|i: u32| key == log_item_key(other, i);
        assert(key[1] == 17u8);
        assert(key[0] == 0u8);
    }
}

/// Different accounts keep their viewing key records under different keys.
pub proof fn lemma_viewing_key_keys_injective(a: Seq<u8>, b: Seq<u8>)
    requires
        a != b,
    ensures
        viewing_key_key(a) != viewing_key_key(b),
{
    let p = length_prefixed(PREFIX_VIEWING_KEY@);
    if viewing_key_key(a) == viewing_key_key(b) {
        assert(a =~= (p + a).subrange(p.len() as int, (p + a).len() as int));
        assert(b =~= (p + b).subrange(p.len() as int, (p + b).len() as int));
    }
}

} // verus!
