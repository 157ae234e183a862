//! The key-value store that every record of the contract lives in.
//!
//! The store is `MemoryStorage` of `secret_cosmwasm_std`. Its contents are
//! modelled as a map from byte keys to byte values.

use secret_cosmwasm_std::MemoryStorage;
use secret_cosmwasm_std::ReadonlyStorage;
use secret_cosmwasm_std::Storage;
use vstd::prelude::*;

verus! {

/// `MemoryStorage` of `secret_cosmwasm_std`: a key-value store in memory.
/// What is inside it is seen only through `stored`.
#[verifier::external_type_specification]
#[verifier::external_body]
pub struct ExMemoryStorage(secret_cosmwasm_std::MemoryStorage);

/// The key-value pairs that a store holds: the contents of the map that
/// `MemoryStorage` keeps its data in.
pub uninterp spec fn stored(storage: MemoryStorage) -> Map<Seq<u8>, Seq<u8>>;

/// What a store holds, as a value of its own: a map from keys to values.
pub type Records = Map<Seq<u8>, Seq<u8>>;

/// Calls `ReadonlyStorage::get` of `MemoryStorage`: a clone of the value
/// held under `key`, or `None` where the store has no such key.
#[verifier::external_body]
pub(crate) fn storage_get(storage: &MemoryStorage, key: &[u8]) -> (value: Option<Vec<u8>>)
    ensures
        value matches Some(v) ==> stored(*storage).contains_key(key@) && v@ == stored(
            *storage,
        )[key@],
        value is None ==> !stored(*storage).contains_key(key@),
{
    storage.get(key)
}

/// Calls `Storage::set` of `MemoryStorage`: `value` is held under `key`
/// afterwards, replacing what was there, and no other key changes.
#[verifier::external_body]
pub(crate) fn storage_set(storage: &mut MemoryStorage, key: &[u8], value: &[u8])
    ensures
        stored(*final(storage)) == stored(*old(storage)).insert(key@, value@),
{
    storage.set(key, value)
}

} // verus!
