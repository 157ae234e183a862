//! One append-only log of byte strings per account.
//!
//! A log keeps its length in a record of its own, beside one record per
//! entry, so that appending, reading one entry and asking for the length all
//! touch a fixed number of records. The logs of different accounts share no
//! key.

use crate::bytes::{be32, be32_value, lemma_be32_round_trip, u32_from_be, u32_to_be};
use crate::error::ContractError;
use crate::keys::{
    is_log_key, lemma_log_keys_disjoint, lemma_log_keys_distinct, log_item_key, log_len_key,
    make_log_item_key, make_log_len_key, MAX_NAMESPACE_LEN,
};
use crate::storage::{storage_get, storage_set, stored, Records};
use secret_cosmwasm_std::MemoryStorage;
use vstd::prelude::*;

verus! {

/// Whether the length of the log of `account` can be read: the log was
/// never written to, or its length record has the four bytes it should.
pub open spec fn log_readable(records: Records, account: Seq<u8>) -> bool {
    records.contains_key(log_len_key(account)) ==> records[log_len_key(account)].len() == 4
}

/// The number of entries in the log of `account`: what its length record
/// says, and 0 where it has none that can be read.
pub open spec fn log_len(records: Records, account: Seq<u8>) -> nat {
    if records.contains_key(log_len_key(account)) && records[log_len_key(account)].len() == 4 {
        be32_value(records[log_len_key(account)]) as nat
    } else {
        0
    }
}

/// The entries of the log of `account`, oldest first.
pub open spec fn log_entries(records: Records, account: Seq<u8>) -> Seq<Seq<u8>> {
    Seq::new(log_len(records, account), |i: int| records[log_item_key(account, i as u32)])
}

/// Whether the log of `account` can be read in full: its length can be
/// read, and every entry below that length is there.
pub open spec fn log_intact(records: Records, account: Seq<u8>) -> bool {
    &&& log_readable(records, account)
    &&& forall|i: int|
        0 <= i < log_len(records, account) ==> records.contains_key(
            #[trigger] log_item_key(account, i as u32),
        )
}

/// The store after the log of `account` was set up: a log that has no
/// length record gets one that says 0, and nothing else changes.
pub open spec fn initialized(records: Records, account: Seq<u8>) -> Records {
    if records.contains_key(log_len_key(account)) {
        records
    } else {
        records.insert(log_len_key(account), be32(0))
    }
}

/// The store after `payload` was appended to the log of `account`: the
/// entry stands at the old length, and the length record says one more.
pub open spec fn appended(records: Records, account: Seq<u8>, payload: Seq<u8>) -> Records {
    records.insert(log_item_key(account, log_len(records, account) as u32), payload).insert(
        log_len_key(account),
        be32((log_len(records, account) + 1) as u32),
    )
}

/// The byte strings that a vector of byte vectors holds.
pub open spec fn payloads(items: Seq<Vec<u8>>) -> Seq<Seq<u8>> {
    Seq::new(items.len(), |i: int| items[i]@)
}

/// Setting a log up changes neither its length nor its entries, and makes
/// it readable where it had no length record.
pub proof fn lemma_initialized(records: Records, account: Seq<u8>)
    requires
        log_readable(records, account),
    ensures
        log_readable(initialized(records, account), account),
        log_len(initialized(records, account), account) == log_len(records, account),
        log_entries(initialized(records, account), account) == log_entries(records, account),
        log_intact(records, account) ==> log_intact(initialized(records, account), account),
{
    let after = initialized(records, account);
    lemma_be32_round_trip(0);
    assert(log_len(after, account) == log_len(records, account));
    assert forall|i: int|
        #![trigger log_item_key(account, i as u32)]
        0 <= i < log_len(records, account) implies after[log_item_key(account, i as u32)]
        == records[log_item_key(account, i as u32)] by {
        lemma_log_keys_distinct(account, i as u32, 0);
    }
    assert(log_entries(after, account) =~= log_entries(records, account));
    if log_intact(records, account) {
        assert forall|i: int| 0 <= i < log_len(after, account) implies after.contains_key(
            #[trigger] log_item_key(account, i as u32),
        ) by {
            assert(records.contains_key(log_item_key(account, i as u32)));
        }
    }
}

/// Appending puts the entry last and keeps all earlier entries: the log is
/// one longer, and reads as before with `payload` behind.
pub proof fn lemma_appended(records: Records, account: Seq<u8>, payload: Seq<u8>)
    requires
        log_readable(records, account),
        log_len(records, account) < u32::MAX,
    ensures
        log_readable(appended(records, account, payload), account),
        log_len(appended(records, account, payload), account) == log_len(records, account) + 1,
        log_entries(appended(records, account, payload), account) == log_entries(
            records,
            account,
        ).push(payload),
        log_intact(records, account) ==> log_intact(appended(records, account, payload), account),
{
    let n = log_len(records, account);
    let after = appended(records, account, payload);
    lemma_be32_round_trip((n + 1) as u32);
    lemma_log_keys_distinct(account, n as u32, n as u32);
    assert(log_len(after, account) == n + 1);
    assert forall|i: int|
        #![trigger log_item_key(account, i as u32)]
        0 <= i < n + 1 implies after.contains_key(log_item_key(account, i as u32)) == (i == n
        || records.contains_key(log_item_key(account, i as u32)))
        && after[log_item_key(account, i as u32)] == (if i == n {
        payload
    } else {
        records[log_item_key(account, i as u32)]
    }) by {
        lemma_log_keys_distinct(account, i as u32, n as u32);
    }
    assert(log_entries(after, account) =~= log_entries(records, account).push(payload));
    if log_intact(records, account) {
        assert forall|i: int| 0 <= i < log_len(after, account) implies after.contains_key(
            #[trigger] log_item_key(account, i as u32),
        ) by {
            if i < n {
                assert(records.contains_key(log_item_key(account, i as u32)));
            }
        }
    }
}

/// A change to records that are no key of the log of `account` leaves that
/// log as it was.
pub proof fn lemma_log_frame(
    before: Records,
    after: Records,
    account: Seq<u8>,
)
    requires
        forall|key: Seq<u8>|
            is_log_key(key, account) ==> (before.contains_key(key) == after.contains_key(key)
                && before[key] == after[key]),
    ensures
        log_readable(after, account) == log_readable(before, account),
        log_len(after, account) == log_len(before, account),
        log_entries(after, account) == log_entries(before, account),
        log_intact(after, account) == log_intact(before, account),
{
    assert(is_log_key(log_len_key(account), account));
    assert forall|i: int|
        #![trigger log_item_key(account, i as u32)]
        0 <= i < log_len(before, account) implies after[log_item_key(account, i as u32)]
        == before[log_item_key(account, i as u32)] && after.contains_key(
        log_item_key(account, i as u32),
    ) == before.contains_key(log_item_key(account, i as u32)) by {
        assert(is_log_key(log_item_key(account, i as u32), account));
    }
    assert(log_entries(after, account) =~= log_entries(before, account));
    if log_intact(before, account) {
        assert forall|i: int| 0 <= i < log_len(after, account) implies after.contains_key(
            #[trigger] log_item_key(account, i as u32),
        ) by {
            assert(before.contains_key(log_item_key(account, i as u32)));
        }
    }
    if log_intact(after, account) {
        assert forall|i: int| 0 <= i < log_len(before, account) implies before.contains_key(
            #[trigger] log_item_key(account, i as u32),
        ) by {
            assert(after.contains_key(log_item_key(account, i as u32)));
        }
    }
}

/// Appending to the log of one account changes nothing in the log of
/// another: not its length, not its entries.
pub proof fn lemma_append_isolated(
    records: Records,
    account: Seq<u8>,
    other: Seq<u8>,
    payload: Seq<u8>,
)
    requires
        account != other,
        account.len() <= MAX_NAMESPACE_LEN,
        other.len() <= MAX_NAMESPACE_LEN,
    ensures
        log_readable(appended(records, account, payload), other) == log_readable(records, other),
        log_len(appended(records, account, payload), other) == log_len(records, other),
        log_entries(appended(records, account, payload), other) == log_entries(records, other),
        log_intact(appended(records, account, payload), other) == log_intact(records, other),
{
    let after = appended(records, account, payload);
    let n = log_len(records, account);
    assert forall|key: Seq<u8>| is_log_key(key, other) implies (records.contains_key(key)
        == after.contains_key(key) && records[key] == after[key]) by {
        assert(is_log_key(log_len_key(account), account));
        assert(is_log_key(log_item_key(account, n as u32), account));
        lemma_log_keys_disjoint(account, other, log_len_key(account));
        lemma_log_keys_disjoint(account, other, log_item_key(account, n as u32));
    }
    lemma_log_frame(records, after, other);
}

/// Three entries appended one after the other stand in the log in that
/// order, behind what was there: a log that was empty then holds exactly the
/// three, and its length is 3.
pub proof fn lemma_append_order(
    records: Records,
    account: Seq<u8>,
    e0: Seq<u8>,
    e1: Seq<u8>,
    e2: Seq<u8>,
)
    requires
        log_readable(records, account),
        log_len(records, account) + 3 <= u32::MAX,
    ensures
        ({
            let after = appended(
                appended(appended(records, account, e0), account, e1),
                account,
                e2,
            );
            &&& log_len(after, account) == log_len(records, account) + 3
            &&& log_entries(after, account) == log_entries(records, account) + seq![e0, e1, e2]
            &&& log_len(records, account) == 0 ==> log_entries(after, account) == seq![e0, e1, e2]
            &&& log_intact(records, account) ==> log_intact(after, account)
        }),
{
    let first = appended(records, account, e0);
    let second = appended(first, account, e1);
    let after = appended(second, account, e2);
    lemma_appended(records, account, e0);
    lemma_appended(first, account, e1);
    lemma_appended(second, account, e2);
    assert(log_entries(records, account).push(e0).push(e1).push(e2) =~= log_entries(
        records,
        account,
    ) + seq![e0, e1, e2]);
    if log_len(records, account) == 0 {
        assert(log_entries(records, account) + seq![e0, e1, e2] =~= seq![e0, e1, e2]);
    }
}

/// Appends to the logs of two accounts may come in either order: each
/// entry gets the position that its own log gives it, whatever was written
/// to the other log in between.
pub proof fn lemma_appends_commute(
    records: Records,
    account: Seq<u8>,
    payload: Seq<u8>,
    other: Seq<u8>,
    other_payload: Seq<u8>,
)
    requires
        account != other,
        account.len() <= MAX_NAMESPACE_LEN,
        other.len() <= MAX_NAMESPACE_LEN,
    ensures
        appended(appended(records, account, payload), other, other_payload) == appended(
            appended(records, other, other_payload),
            account,
            payload,
        ),
{
    let n = log_len(records, account);
    let m = log_len(records, other);
    lemma_append_isolated(records, account, other, payload);
    lemma_append_isolated(records, other, account, other_payload);
    assert(is_log_key(log_len_key(account), account));
    assert(is_log_key(log_item_key(account, n as u32), account));
    lemma_log_keys_disjoint(account, other, log_len_key(account));
    lemma_log_keys_disjoint(account, other, log_item_key(account, n as u32));
    assert(is_log_key(log_len_key(other), other));
    assert(is_log_key(log_item_key(other, m as u32), other));
    assert(appended(appended(records, account, payload), other, other_payload) =~= appended(
        appended(records, other, other_payload),
        account,
        payload,
    ));
}

/// The number of entries in the log of `account`; 0 for a log that was
/// never written to.
pub fn len(storage: &MemoryStorage, account: &[u8]) -> (count: u32)
    requires
        account@.len() <= MAX_NAMESPACE_LEN,
    ensures
        count == log_len(stored(*storage), account@),
{
    let key: Vec<u8> = make_log_len_key(account);
    match storage_get(storage, key.as_slice()) {
        Some(record) => {
            if record.len() == 4 {
                u32_from_be(record.as_slice())
            } else {
                0
            }
        },
        None => 0,
    }
}

/// Reads the length record of the log of `account`, and fails where it is
/// there but cannot be read.
fn read_len(storage: &MemoryStorage, account: &[u8]) -> (count: Option<u32>)
    requires
        account@.len() <= MAX_NAMESPACE_LEN,
    ensures
        count is Some == log_readable(stored(*storage), account@),
        count matches Some(n) ==> n == log_len(stored(*storage), account@),
{
    let key: Vec<u8> = make_log_len_key(account);
    match storage_get(storage, key.as_slice()) {
        Some(record) => {
            if record.len() == 4 {
                Some(u32_from_be(record.as_slice()))
            } else {
                None
            }
        },
        None => Some(0),
    }
}

/// Sets the log of `account` up without putting anything in it. A log that
/// exists keeps its entries.
///
/// Fails with `StorageFault`, and changes nothing, exactly where the log's
/// length record cannot be read.
pub fn create(storage: &mut MemoryStorage, account: &[u8]) -> (result: Result<(), ContractError>)
    requires
        account@.len() <= MAX_NAMESPACE_LEN,
    ensures
        result is Ok == log_readable(stored(*old(storage)), account@),
        result is Ok ==> stored(*final(storage)) == initialized(stored(*old(storage)), account@),
        result is Err ==> result == Err::<(), ContractError>(ContractError::StorageFault)
            && stored(*final(storage)) == stored(*old(storage)),
{
    let key: Vec<u8> = make_log_len_key(account);
    match storage_get(storage, key.as_slice()) {
        Some(record) => {
            if record.len() == 4 {
                Ok(())
            } else {
                Err(ContractError::StorageFault)
            }
        },
        None => {
            let zero: Vec<u8> = u32_to_be(0);
            storage_set(storage, key.as_slice(), zero.as_slice());
            Ok(())
        },
    }
}

/// Appends `payload` to the log of `account` and returns the position it
/// got: the length of the log before.
///
/// Fails with `StorageFault`, and changes nothing, exactly where the log's
/// length record cannot be read or the log holds `u32::MAX` entries.
pub fn append(storage: &mut MemoryStorage, account: &[u8], payload: &[u8]) -> (result: Result<
    u32,
    ContractError,
>)
    requires
        account@.len() <= MAX_NAMESPACE_LEN,
    ensures
        result is Ok == (log_readable(stored(*old(storage)), account@) && log_len(
            stored(*old(storage)),
            account@,
        ) < u32::MAX),
        result matches Ok(index) ==> {
            &&& index == log_len(stored(*old(storage)), account@)
            &&& stored(*final(storage)) == appended(stored(*old(storage)), account@, payload@)
            &&& log_entries(stored(*final(storage)), account@) == log_entries(
                stored(*old(storage)),
                account@,
            ).push(payload@)
            &&& log_len(stored(*final(storage)), account@) == index + 1
        },
        result matches Err(e) ==> e == ContractError::StorageFault && stored(*final(storage))
            == stored(*old(storage)),
{
    match read_len(storage, account) {
        Some(count) => {
            if count == u32::MAX {
                return Err(ContractError::StorageFault);
            }
            proof {
                lemma_appended(stored(*storage), account@, payload@);
            }
            let item_key: Vec<u8> = make_log_item_key(account, count);
            storage_set(storage, item_key.as_slice(), payload);
            let len_key: Vec<u8> = make_log_len_key(account);
            let next: Vec<u8> = u32_to_be(count + 1);
            storage_set(storage, len_key.as_slice(), next.as_slice());
            Ok(count)
        },
        None => Err(ContractError::StorageFault),
    }
}

/// The entry at position `index` of the log of `account`.
///
/// Fails with `NotFound` exactly where the log's length can be read and
/// `index` is not below it, and with `StorageFault` exactly where the length
/// cannot be read or the entry is missing though `index` is below it.
pub fn get(storage: &MemoryStorage, account: &[u8], index: u32) -> (result: Result<
    Vec<u8>,
    ContractError,
>)
    requires
        account@.len() <= MAX_NAMESPACE_LEN,
    ensures
        match result {
            Ok(payload) => {
                &&& log_readable(stored(*storage), account@)
                &&& index < log_len(stored(*storage), account@)
                &&& stored(*storage).contains_key(log_item_key(account@, index))
                &&& payload@ == log_entries(stored(*storage), account@)[index as int]
            },
            Err(ContractError::NotFound) => {
                &&& log_readable(stored(*storage), account@)
                &&& index >= log_len(stored(*storage), account@)
            },
            Err(e) => {
                &&& e == ContractError::StorageFault
                &&& !log_readable(stored(*storage), account@) || (index < log_len(
                    stored(*storage),
                    account@,
                ) && !stored(*storage).contains_key(log_item_key(account@, index)))
            },
        },
{
    match read_len(storage, account) {
        Some(count) => {
            if index >= count {
                return Err(ContractError::NotFound);
            }
            let key: Vec<u8> = make_log_item_key(account, index);
            match storage_get(storage, key.as_slice()) {
                Some(payload) => Ok(payload),
                None => Err(ContractError::StorageFault),
            }
        },
        None => Err(ContractError::StorageFault),
    }
}

/// All entries of the log of `account`, oldest first.
///
/// Fails with `StorageFault` exactly where the log is not intact.
pub fn entries(storage: &MemoryStorage, account: &[u8]) -> (result: Result<
    Vec<Vec<u8>>,
    ContractError,
>)
    requires
        account@.len() <= MAX_NAMESPACE_LEN,
    ensures
        result is Ok == log_intact(stored(*storage), account@),
        result matches Ok(items) ==> payloads(items@) == log_entries(stored(*storage), account@),
        result matches Err(e) ==> e == ContractError::StorageFault,
{
    let count: u32 = match read_len(storage, account) {
        Some(count) => count,
        None => {
            return Err(ContractError::StorageFault);
        },
    };
    let mut items: Vec<Vec<u8>> = Vec::new();
    let mut index: u32 = 0;
    while index < count
        invariant
            account@.len() <= MAX_NAMESPACE_LEN,
            log_readable(stored(*storage), account@),
            count == log_len(stored(*storage), account@),
            index <= count,
            items@.len() == index,
            forall|i: int|
                0 <= i < index ==> stored(*storage).contains_key(
                    #[trigger] log_item_key(account@, i as u32),
                ),
            forall|i: int|
                0 <= i < index ==> (#[trigger] items@[i])@ == stored(*storage)[log_item_key(
                    account@,
                    i as u32,
                )],
        decreases count - index,
    {
        let key: Vec<u8> = make_log_item_key(account, index);
        match storage_get(storage, key.as_slice()) {
            Some(payload) => {
                items.push(payload);
            },
            None => {
                assert(!stored(*storage).contains_key(log_item_key(account@, index as int as u32)));
                return Err(ContractError::StorageFault);
            },
        }
        index = index + 1;
    }
    assert(payloads(items@) =~= log_entries(stored(*storage), account@));
    Ok(items)
}

} // verus!
