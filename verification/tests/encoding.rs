use message_vault::bytes::{
    append_bytes, copy_range, slices_equal, u32_from_be, u32_to_be, u64_from_le, u64_to_be,
    u64_to_le,
};
use message_vault::error::ContractError;
use message_vault::frame::{put_field, take_field};
use message_vault::keys::{
    make_log_item_key, make_log_len_key, make_viewing_key_key, CONFIG_KEY, LEN_KEY,
    MAX_NAMESPACE_LEN, PREFIX_MSGS_RECEIVED, PREFIX_VIEWING_KEY,
};
use message_vault::msg::{
    HandleResponse, InitResponse, QueryMsg, ResponseStatus, ViewingPermissions,
};
use message_vault::state::{load, save, Message, State};
use message_vault::types::{Account, HumanAddr};
use message_vault::viewing_key::ViewingKey;
use secret_cosmwasm_std::{MemoryStorage, ReadonlyStorage, Storage};
use secret_toolkit::serialization::{Bincode2, Serde};

#[test]
fn numbers_are_written_with_fixed_width() {
    assert_eq!(u32_to_be(0), vec![0, 0, 0, 0]);
    assert_eq!(u32_to_be(1), vec![0, 0, 0, 1]);
    assert_eq!(u32_to_be(0x0102_0304), vec![1, 2, 3, 4]);
    assert_eq!(u32_to_be(u32::MAX), vec![255, 255, 255, 255]);
    assert_eq!(u32_from_be(&[1, 2, 3, 4]), 0x0102_0304);
    assert_eq!(u32_from_be(&[255, 255, 255, 255]), u32::MAX);
    assert_eq!(u64_to_be(0x0102_0304_0506_0708), vec![1, 2, 3, 4, 5, 6, 7, 8]);
    assert_eq!(u64_to_be(12_345), 12_345u64.to_be_bytes().to_vec());
    assert_eq!(u64_to_le(0x0102_0304_0506_0708), vec![8, 7, 6, 5, 4, 3, 2, 1]);
    assert_eq!(u64_to_le(u64::MAX), vec![255; 8]);
    assert_eq!(u64_from_le(&[8, 7, 6, 5, 4, 3, 2, 1]), 0x0102_0304_0506_0708);
    assert_eq!(u64_from_le(&[1, 0, 0, 0, 0, 0, 0, 0]), 1);
    for x in [0u32, 1, 255, 256, 65_535, 65_536, 0x00FF_FF00, u32::MAX] {
        assert_eq!(u32_from_be(&u32_to_be(x)), x);
        assert_eq!(u32_to_be(x), x.to_be_bytes().to_vec());
    }
    for x in [0u64, 1, 0xFFFF_FFFF, 0x1_0000_0000, u64::MAX] {
        assert_eq!(u64_from_le(&u64_to_le(x)), x);
        assert_eq!(u64_to_le(x), x.to_le_bytes().to_vec());
    }
}

#[test]
fn byte_helpers_copy_what_they_are_told() {
    let mut buffer = vec![1u8, 2];
    append_bytes(&mut buffer, &[3, 4]);
    append_bytes(&mut buffer, &[]);
    assert_eq!(buffer, vec![1, 2, 3, 4]);
    assert_eq!(copy_range(&buffer, 1, 3), vec![2, 3]);
    assert_eq!(copy_range(&buffer, 4, 4), Vec::<u8>::new());
    assert_eq!(copy_range(&buffer, 0, 4), buffer);
    assert!(slices_equal(b"", b""));
    assert!(slices_equal(b"ab", b"ab"));
    assert!(!slices_equal(b"ab", b"ac"));
    assert!(!slices_equal(b"ab", b"abc"));
}

#[test]
fn namespaces_have_the_expected_text() {
    assert_eq!(&CONFIG_KEY, b"config");
    assert_eq!(&PREFIX_MSGS_RECEIVED, b"messages_received");
    assert_eq!(&PREFIX_VIEWING_KEY, b"viewingkey");
    assert_eq!(&LEN_KEY, b"len");
    assert_eq!(MAX_NAMESPACE_LEN, 65_535);
}

#[test]
fn keys_start_with_length_prefixed_namespaces() {
    assert_eq!(make_viewing_key_key(b""), b"\x00\x0aviewingkey".to_vec());
    assert_eq!(make_viewing_key_key(b"abc"), b"\x00\x0aviewingkeyabc".to_vec());
    assert_eq!(make_log_len_key(b""), b"\x00\x11messages_received\x00\x00len".to_vec());
    assert_eq!(make_log_len_key(b"abc"), b"\x00\x11messages_received\x00\x03abclen".to_vec());
    assert_eq!(
        make_log_item_key(b"abc", 1),
        b"\x00\x11messages_received\x00\x03abc\x00\x00\x00\x01".to_vec()
    );
    let long = vec![b'x'; 300];
    let key = make_log_len_key(&long);
    assert_eq!(&key[19..21], &[1, 44]);
    assert_eq!(&key[21..321], &long[..]);
    // the key of one account's length record is not an entry key of a shorter-named account
    assert_ne!(make_log_len_key(b"ab"), make_log_item_key(b"a", u32::from_be_bytes(*b"blen")));
}

#[test]
fn fields_are_written_behind_their_length() {
    let mut buffer = vec![9u8];
    put_field(&mut buffer, b"abc");
    put_field(&mut buffer, b"");
    assert_eq!(
        buffer,
        vec![9, 3, 0, 0, 0, 0, 0, 0, 0, b'a', b'b', b'c', 0, 0, 0, 0, 0, 0, 0, 0]
    );
    assert_eq!(take_field(&buffer, 1), Some((b"abc".to_vec(), 12)));
    assert_eq!(take_field(&buffer, 12), Some((vec![], 20)));
    assert_eq!(take_field(&buffer, 20), None);
    assert_eq!(take_field(&buffer, 21), None);
    assert_eq!(take_field(&buffer, 13), None);
    assert_eq!(take_field(&buffer, usize::MAX), None);
    // a length that promises more than there is
    assert_eq!(take_field(&[4, 0, 0, 0, 0, 0, 0, 0, 1, 2, 3], 0), None);
    assert_eq!(take_field(&[255; 16], 0), None);
}

#[test]
fn a_message_is_written_as_two_fields() {
    let message = Message::new("a.jpg".to_string(), "bo".to_string());
    let bytes = message.encode();
    assert_eq!(
        bytes,
        vec![
            5, 0, 0, 0, 0, 0, 0, 0, b'a', b'.', b'j', b'p', b'g', 2, 0, 0, 0, 0, 0, 0, 0, b'b',
            b'o'
        ]
    );
    assert_eq!(Message::decode(&bytes), Some(message));
    let empty = Message::new(String::new(), String::new());
    assert_eq!(empty.encode(), vec![0u8; 16]);
    assert_eq!(Message::decode(&[0u8; 16]), Some(empty));
}

#[test]
fn a_message_is_written_as_bincode_writes_a_pair_of_strings() {
    let pairs = [
        ("a.jpg", "carol"),
        ("", ""),
        ("Sender/pepe.jpg", "sender"),
        ("\u{e9}t\u{e9}", "\u{1F980}"),
    ];
    for (path, sender) in pairs {
        let message = Message::new(path.to_string(), sender.to_string());
        let pair = (path.to_string(), sender.to_string());
        assert_eq!(message.encode(), Bincode2::serialize(&pair).unwrap());
        let read: (String, String) = Bincode2::deserialize(&message.encode()).unwrap();
        assert_eq!(read, pair);
    }
}

#[test]
fn bytes_that_are_no_message_are_refused() {
    let good = Message::new("a.jpg".to_string(), "bo".to_string()).encode();
    assert_eq!(Message::decode(&[]), None);
    assert_eq!(Message::decode(&good[..good.len() - 1]), None);
    assert_eq!(Message::decode(&good[..13]), None);
    let mut longer = good.clone();
    longer.push(0);
    assert_eq!(Message::decode(&longer), None);
    // a path that is not UTF-8
    let mut bad_path = good.clone();
    bad_path[8] = 0xFF;
    assert_eq!(Message::decode(&bad_path), None);
    // a sender that is not UTF-8
    let mut bad_sender = good.clone();
    bad_sender[22] = 0xC0;
    assert_eq!(Message::decode(&bad_sender), None);
    // a text cut in the middle of a character
    let mut cut = vec![1u8, 0, 0, 0, 0, 0, 0, 0, 0xC3];
    cut.extend_from_slice(&[0u8; 8]);
    assert_eq!(Message::decode(&cut), None);
}

#[test]
fn a_configuration_is_written_as_three_fields() {
    let state = State {
        owner: vec![1, 2],
        contract: HumanAddr("c".to_string()),
        prng_seed: vec![9, 8, 7],
    };
    let bytes = state.encode();
    assert_eq!(
        bytes,
        vec![
            2, 0, 0, 0, 0, 0, 0, 0, 1, 2, 1, 0, 0, 0, 0, 0, 0, 0, b'c', 3, 0, 0, 0, 0, 0, 0, 0, 9,
            8, 7
        ]
    );
    assert_eq!(State::decode(&bytes), Some(state));
    assert_eq!(State::decode(&bytes[..29]), None);
    assert_eq!(State::decode(&[]), None);
    let mut longer = bytes.clone();
    longer.push(0);
    assert_eq!(State::decode(&longer), None);
    let mut bad_contract = bytes.clone();
    bad_contract[18] = 0x80;
    assert_eq!(State::decode(&bad_contract), None);
    // two fields are a message, not a configuration
    assert_eq!(State::decode(&Message::new("a".to_string(), "b".to_string()).encode()), None);
}

#[test]
fn a_configuration_is_read_back_as_it_was_saved() {
    let mut storage = MemoryStorage::new();
    assert_eq!(load(&storage, &CONFIG_KEY), Err(ContractError::StorageFault));
    let state = State {
        owner: b"owner".to_vec(),
        contract: HumanAddr("cosmos2contract".to_string()),
        prng_seed: vec![0; 32],
    };
    save(&mut storage, &CONFIG_KEY, &state);
    assert_eq!(storage.get(b"config"), Some(state.encode()));
    assert_eq!(load(&storage, &CONFIG_KEY), Ok(state.clone()));
    assert_eq!(load(&storage, b"other"), Err(ContractError::StorageFault));
    let newer = State { prng_seed: vec![1; 32], ..state };
    save(&mut storage, &CONFIG_KEY, &newer);
    assert_eq!(load(&storage, &CONFIG_KEY), Ok(newer));
    storage.set(b"config", b"garbage");
    assert_eq!(load(&storage, &CONFIG_KEY), Err(ContractError::StorageFault));
}

#[test]
fn an_account_is_named_by_its_canonical_form() {
    let alice = Account { address: HumanAddr("alice".to_string()), canonical: Some(vec![1, 2]) };
    let alias = Account { address: HumanAddr("alias".to_string()), canonical: Some(vec![1, 2]) };
    let bob = Account { address: HumanAddr("bob".to_string()), canonical: Some(vec![1, 3]) };
    let nobody = Account { address: HumanAddr("alice".to_string()), canonical: None };
    let long =
        Account { address: HumanAddr("long".to_string()), canonical: Some(vec![0; 0x10000]) };
    let longest =
        Account { address: HumanAddr("long".to_string()), canonical: Some(vec![0; 0xFFFF]) };
    assert_eq!(alice.name(), Some(&[1u8, 2][..]));
    assert_eq!(nobody.name(), None);
    assert_eq!(long.name(), None);
    assert_eq!(longest.name().map(|n| n.len()), Some(0xFFFF));
    assert!(alice.same_as(&alice));
    assert!(alice.same_as(&alias));
    assert!(!alice.same_as(&bob));
    assert!(!alice.same_as(&nobody));
    assert!(!nobody.same_as(&nobody));
    assert!(!long.same_as(&long));
}

#[test]
fn a_query_names_its_account_and_its_key() {
    let alice = Account { address: HumanAddr("alice".to_string()), canonical: Some(vec![1, 2]) };
    let msg = QueryMsg::GetMessages { behalf: alice.clone(), key: "k1".to_string() };
    let (accounts, key) = msg.get_validation_params();
    assert_eq!(accounts, vec![&alice]);
    assert_eq!(key, ViewingKey("k1".to_string()));
}

#[test]
fn plain_responses_ask_for_nothing() {
    let init = InitResponse::default();
    assert!(init.messages.is_empty() && init.log.is_empty());
    let handle = HandleResponse::default();
    assert!(handle.messages.is_empty() && handle.log.is_empty());
    assert_eq!(handle.data, None);
    assert_ne!(ResponseStatus::Success, ResponseStatus::Failure);
    assert_eq!(ViewingPermissions { key: None }, ViewingPermissions { key: None });
}
