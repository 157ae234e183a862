use message_vault::append_log::{append, create, entries, get, len};
use message_vault::error::ContractError;
use message_vault::keys::{make_log_item_key, make_log_len_key, PREFIX_MSGS_RECEIVED};
use message_vault::state::{append_message, get_messages, Message};
use message_vault::types::{Account, HumanAddr};
use secret_cosmwasm_std::{MemoryStorage, ReadonlyStorage, Storage};
use secret_cosmwasm_storage::{PrefixedStorage, ReadonlyPrefixedStorage};
use secret_toolkit::storage::{AppendStore, AppendStoreMut};

fn named(address: &str, canonical: &[u8]) -> Account {
    Account { address: HumanAddr(address.to_string()), canonical: Some(canonical.to_vec()) }
}

#[test]
fn three_appends_come_back_in_order() {
    let mut storage = MemoryStorage::new();
    assert_eq!(len(&storage, b"n"), 0);
    assert_eq!(append(&mut storage, b"n", b"e0"), Ok(0));
    assert_eq!(append(&mut storage, b"n", b"e1"), Ok(1));
    assert_eq!(append(&mut storage, b"n", b"e2"), Ok(2));
    assert_eq!(len(&storage, b"n"), 3);
    assert_eq!(
        entries(&storage, b"n"),
        Ok(vec![b"e0".to_vec(), b"e1".to_vec(), b"e2".to_vec()])
    );
    assert_eq!(get(&storage, b"n", 0), Ok(b"e0".to_vec()));
    assert_eq!(get(&storage, b"n", 1), Ok(b"e1".to_vec()));
    assert_eq!(get(&storage, b"n", 2), Ok(b"e2".to_vec()));
    // reading again starts from the first entry again
    assert_eq!(
        entries(&storage, b"n"),
        Ok(vec![b"e0".to_vec(), b"e1".to_vec(), b"e2".to_vec()])
    );
}

#[test]
fn reading_past_the_end_finds_nothing() {
    let mut storage = MemoryStorage::new();
    assert_eq!(get(&storage, b"n", 0), Err(ContractError::NotFound));
    append(&mut storage, b"n", b"e0").unwrap();
    assert_eq!(get(&storage, b"n", 1), Err(ContractError::NotFound));
    assert_eq!(get(&storage, b"n", u32::MAX), Err(ContractError::NotFound));
}

#[test]
fn a_log_never_written_to_is_empty() {
    let storage = MemoryStorage::new();
    assert_eq!(len(&storage, b"never"), 0);
    assert_eq!(entries(&storage, b"never"), Ok(vec![]));
    assert_eq!(len(&storage, b""), 0);
}

#[test]
fn appending_to_one_log_leaves_the_other_alone() {
    let mut storage = MemoryStorage::new();
    append(&mut storage, b"n2", b"kept").unwrap();
    let before = entries(&storage, b"n2");
    for i in 0..5u8 {
        append(&mut storage, b"n1", &[i]).unwrap();
    }
    assert_eq!(len(&storage, b"n2"), 1);
    assert_eq!(entries(&storage, b"n2"), before);
    assert_eq!(len(&storage, b"n1"), 5);
    // a namespace that is a prefix of another one is another namespace
    assert_eq!(len(&storage, b"n"), 0);
    append(&mut storage, b"n", b"short").unwrap();
    assert_eq!(entries(&storage, b"n"), Ok(vec![b"short".to_vec()]));
    assert_eq!(len(&storage, b"n1"), 5);
    assert_eq!(entries(&storage, b"n2"), before);
}

#[test]
fn interleaved_appends_number_each_log_from_zero() {
    let mut storage = MemoryStorage::new();
    assert_eq!(append(&mut storage, b"a", b"a0"), Ok(0));
    assert_eq!(append(&mut storage, b"b", b"b0"), Ok(0));
    assert_eq!(append(&mut storage, b"a", b"a1"), Ok(1));
    assert_eq!(append(&mut storage, b"b", b"b1"), Ok(1));
    assert_eq!(append(&mut storage, b"a", b"a2"), Ok(2));
    assert_eq!(entries(&storage, b"a"), Ok(vec![b"a0".to_vec(), b"a1".to_vec(), b"a2".to_vec()]));
    assert_eq!(entries(&storage, b"b"), Ok(vec![b"b0".to_vec(), b"b1".to_vec()]));
}

#[test]
fn records_stand_under_the_expected_keys() {
    let mut storage = MemoryStorage::new();
    append(&mut storage, b"acct", b"hi").unwrap();
    let mut prefix = b"\x00\x11messages_received\x00\x04acct".to_vec();
    assert_eq!(make_log_len_key(b"acct"), [prefix.clone(), b"len".to_vec()].concat());
    assert_eq!(make_log_item_key(b"acct", 258), [prefix.clone(), vec![0, 0, 1, 2]].concat());
    assert_eq!(storage.get(&[prefix.clone(), b"len".to_vec()].concat()), Some(vec![0, 0, 0, 1]));
    prefix.extend_from_slice(&[0, 0, 0, 0]);
    assert_eq!(storage.get(&prefix), Some(b"hi".to_vec()));
}

#[test]
fn create_sets_up_an_empty_log_and_keeps_a_full_one() {
    let mut storage = MemoryStorage::new();
    assert_eq!(create(&mut storage, b"n"), Ok(()));
    assert_eq!(storage.get(&make_log_len_key(b"n")), Some(vec![0, 0, 0, 0]));
    assert_eq!(len(&storage, b"n"), 0);
    append(&mut storage, b"n", b"e0").unwrap();
    assert_eq!(create(&mut storage, b"n"), Ok(()));
    assert_eq!(entries(&storage, b"n"), Ok(vec![b"e0".to_vec()]));
}

#[test]
fn an_unreadable_length_record_is_a_storage_fault() {
    let mut storage = MemoryStorage::new();
    storage.set(&make_log_len_key(b"n"), &[0, 0, 1]);
    assert_eq!(len(&storage, b"n"), 0);
    assert_eq!(append(&mut storage, b"n", b"e0"), Err(ContractError::StorageFault));
    assert_eq!(create(&mut storage, b"n"), Err(ContractError::StorageFault));
    assert_eq!(get(&storage, b"n", 0), Err(ContractError::StorageFault));
    assert_eq!(entries(&storage, b"n"), Err(ContractError::StorageFault));
    assert_eq!(storage.get(&make_log_len_key(b"n")), Some(vec![0, 0, 1]));
    assert_eq!(storage.get(&make_log_item_key(b"n", 0)), None);
}

#[test]
fn a_missing_entry_is_a_storage_fault() {
    let mut storage = MemoryStorage::new();
    append(&mut storage, b"n", b"e0").unwrap();
    storage.set(&make_log_len_key(b"n"), &[0, 0, 0, 2]);
    assert_eq!(len(&storage, b"n"), 2);
    assert_eq!(get(&storage, b"n", 0), Ok(b"e0".to_vec()));
    assert_eq!(get(&storage, b"n", 1), Err(ContractError::StorageFault));
    assert_eq!(get(&storage, b"n", 2), Err(ContractError::NotFound));
    assert_eq!(entries(&storage, b"n"), Err(ContractError::StorageFault));
}

#[test]
fn a_log_that_holds_all_it_can_takes_no_more() {
    let mut storage = MemoryStorage::new();
    storage.set(&make_log_len_key(b"n"), &[255, 255, 255, 255]);
    assert_eq!(len(&storage, b"n"), u32::MAX);
    assert_eq!(append(&mut storage, b"n", b"e"), Err(ContractError::StorageFault));
    assert_eq!(len(&storage, b"n"), u32::MAX);
    storage.set(&make_log_len_key(b"n"), &[255, 255, 255, 254]);
    assert_eq!(append(&mut storage, b"n", b"e"), Ok(u32::MAX - 1));
    assert_eq!(len(&storage, b"n"), u32::MAX);
}

#[test]
fn the_longest_namespace_is_taken() {
    let mut storage = MemoryStorage::new();
    let long = vec![7u8; 0xFFFF];
    assert_eq!(append(&mut storage, &long, b"e0"), Ok(0));
    assert_eq!(len(&storage, &long), 1);
    let key = make_log_len_key(&long);
    assert_eq!(&key[19..21], &[0xFF, 0xFF]);
    assert_eq!(key.len(), 19 + 2 + 0xFFFF + 3);
}

#[test]
fn an_entry_that_is_no_message_is_a_storage_fault() {
    let mut storage = MemoryStorage::new();
    let alice = named("alice", b"alice-canonical");
    append(&mut storage, b"alice-canonical", b"not a message").unwrap();
    assert_eq!(Message::len(&storage, &alice), 1);
    assert_eq!(get_messages(&storage, &alice), Err(ContractError::StorageFault));
}

#[test]
fn an_account_with_too_long_a_name_has_no_log() {
    let mut storage = MemoryStorage::new();
    let long = named("long", &vec![1u8; 0x10000]);
    let message = Message::new("a.jpg".to_string(), "carol".to_string());
    assert_eq!(append_message(&mut storage, &message, &long), Err(ContractError::InvalidAddress));
    assert_eq!(get_messages(&storage, &long), Err(ContractError::InvalidAddress));
    assert_eq!(Message::len(&storage, &long), 0);
}

#[test]
fn messages_written_here_are_read_by_the_toolkit_append_store() {
    let mut storage = MemoryStorage::new();
    let alice = named("alice", b"alice-canonical");
    let first = Message::new("a.jpg".to_string(), "carol".to_string());
    let second = Message::new("b.pdf".to_string(), "dave \u{1F980}".to_string());
    append_message(&mut storage, &first, &alice).unwrap();
    append_message(&mut storage, &second, &alice).unwrap();

    let prefixed =
        ReadonlyPrefixedStorage::multilevel(&[&PREFIX_MSGS_RECEIVED, b"alice-canonical"], &storage);
    let store = AppendStore::<(String, String), _>::attach(&prefixed).unwrap().unwrap();
    assert_eq!(store.len(), 2);
    assert_eq!(store.get_at(0), Ok(("a.jpg".to_string(), "carol".to_string())));
    assert_eq!(store.get_at(1), Ok(("b.pdf".to_string(), "dave \u{1F980}".to_string())));
}

#[test]
fn messages_written_by_the_toolkit_append_store_are_read_here() {
    let mut storage = MemoryStorage::new();
    let alice = named("alice", b"alice-canonical");
    {
        let mut prefixed =
            PrefixedStorage::multilevel(&[&PREFIX_MSGS_RECEIVED, b"alice-canonical"], &mut storage);
        let mut store =
            AppendStoreMut::<(String, String), _>::attach_or_create(&mut prefixed).unwrap();
        store.push(&("a.jpg".to_string(), "carol".to_string())).unwrap();
        store.push(&("b.pdf".to_string(), "".to_string())).unwrap();
    }
    assert_eq!(Message::len(&storage, &alice), 2);
    assert_eq!(
        get_messages(&storage, &alice),
        Ok(vec![
            Message::new("a.jpg".to_string(), "carol".to_string()),
            Message::new("b.pdf".to_string(), "".to_string()),
        ])
    );
    let third = Message::new("c.png".to_string(), "erin".to_string());
    append_message(&mut storage, &third, &alice).unwrap();
    let prefixed =
        ReadonlyPrefixedStorage::multilevel(&[&PREFIX_MSGS_RECEIVED, b"alice-canonical"], &storage);
    let store = AppendStore::<(String, String), _>::attach(&prefixed).unwrap().unwrap();
    let all: Vec<(String, String)> = store.iter().map(|item| item.unwrap()).collect();
    assert_eq!(
        all,
        vec![
            ("a.jpg".to_string(), "carol".to_string()),
            ("b.pdf".to_string(), "".to_string()),
            ("c.png".to_string(), "erin".to_string()),
        ]
    );
}
