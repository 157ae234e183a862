use message_vault::keys::make_viewing_key_key;
use message_vault::state::{read_viewing_key, write_viewing_key};
use message_vault::types::{Account, BlockInfo, ContractInfo, Env, HumanAddr, MessageInfo};
use message_vault::viewing_key::{
    create_hashed_password, ct_slice_compare, ct_slice_compare_counted, Comparison, ViewingKey,
    VIEWING_KEY_PREFIX, VIEWING_KEY_SIZE,
};
use secret_cosmwasm_std::{MemoryStorage, ReadonlyStorage};

const SHA_256_OF_TEST: [u8; 32] = [
    159, 134, 208, 129, 136, 76, 125, 101, 154, 47, 234, 160, 197, 90, 208, 21, 163, 191, 79, 27,
    43, 11, 130, 44, 209, 93, 108, 21, 176, 240, 10, 8,
];

const SHA_256_OF_K1: [u8; 32] = [
    106, 185, 241, 235, 143, 125, 51, 136, 244, 249, 213, 134, 246, 110, 153, 253, 84, 8, 13, 242,
    196, 70, 240, 229, 134, 104, 176, 156, 8, 161, 109, 208,
];

fn env(height: u64, time: u64, sender: &str) -> Env {
    Env {
        block: BlockInfo { height, time },
        message: MessageInfo {
            sender: Account { address: HumanAddr(sender.to_string()), canonical: None },
        },
        contract: ContractInfo { address: HumanAddr("contract".to_string()) },
    }
}

#[test]
fn comparison_tells_equal_from_different() {
    assert!(ct_slice_compare(b"", b""));
    assert!(ct_slice_compare(b"abc", b"abc"));
    assert!(!ct_slice_compare(b"abc", b"abd"));
    assert!(!ct_slice_compare(b"abc", b"xbc"));
    assert!(!ct_slice_compare(b"abc", b"ab"));
    assert!(!ct_slice_compare(b"", b"a"));
    assert!(!ct_slice_compare(&[0x0f], &[0xf0]));
    assert!(!ct_slice_compare(&[0x01, 0x00], &[0x00, 0x01]));
}

#[test]
fn comparison_looks_at_every_byte_wherever_the_difference_is() {
    let stored = [7u8; 32];
    let mut first_differs = stored;
    first_differs[0] = 0;
    let mut last_differs = stored;
    last_differs[31] = 0;
    assert_eq!(ct_slice_compare_counted(&stored, &stored), Comparison { equal: true, steps: 32 });
    assert_eq!(
        ct_slice_compare_counted(&first_differs, &stored),
        Comparison { equal: false, steps: 32 }
    );
    assert_eq!(
        ct_slice_compare_counted(&last_differs, &stored),
        Comparison { equal: false, steps: 32 }
    );
    assert_eq!(
        ct_slice_compare_counted(&[0u8; 32], &stored),
        Comparison { equal: false, steps: 32 }
    );
    assert_eq!(
        ct_slice_compare_counted(&stored[..31], &stored),
        Comparison { equal: false, steps: 0 }
    );
}

#[test]
fn what_is_kept_of_a_key_is_its_digest() {
    assert_eq!(create_hashed_password("test"), SHA_256_OF_TEST.to_vec());
    assert_eq!(ViewingKey("k1".to_string()).to_hashed(), SHA_256_OF_K1.to_vec());
    assert_eq!(ViewingKey("k1".to_string()).to_hashed().len(), VIEWING_KEY_SIZE);
    assert_eq!(ViewingKey("k1".to_string()).as_bytes(), b"k1");
    assert_eq!(ViewingKey("k1".to_string()).to_string(), "k1");
}

#[test]
fn a_key_matches_its_own_digest_only() {
    let key = ViewingKey("test".to_string());
    assert!(key.check_viewing_key(&SHA_256_OF_TEST));
    assert!(!key.check_viewing_key(&SHA_256_OF_K1));
    assert!(!key.check_viewing_key(&[0u8; VIEWING_KEY_SIZE]));
    assert!(!key.check_viewing_key(b"test"));
    assert!(!key.check_viewing_key(&SHA_256_OF_TEST[..31]));
    assert_eq!(
        key.check_viewing_key_counted(&SHA_256_OF_K1),
        Comparison { equal: false, steps: VIEWING_KEY_SIZE }
    );
    assert_eq!(
        key.check_viewing_key_counted(&SHA_256_OF_TEST),
        Comparison { equal: true, steps: VIEWING_KEY_SIZE }
    );
}

#[test]
fn a_new_key_has_the_expected_text() {
    let key = ViewingKey::new(&env(1, 2, "alice"), b"seed", b"entropy");
    assert_eq!(key.0, "api_key_eeWQ9lqOzncM4ai5cPmEuVsyIf4YFtUhKjs7cLVa3L8=");
    assert!(key.0.starts_with(VIEWING_KEY_PREFIX));
}

#[test]
fn a_new_key_depends_on_every_input() {
    let key = ViewingKey::new(&env(1, 2, "alice"), b"seed", b"entropy");
    assert_eq!(key, ViewingKey::new(&env(1, 2, "alice"), b"seed", b"entropy"));
    assert_ne!(key, ViewingKey::new(&env(2, 2, "alice"), b"seed", b"entropy"));
    assert_ne!(key, ViewingKey::new(&env(1, 3, "alice"), b"seed", b"entropy"));
    assert_ne!(key, ViewingKey::new(&env(1, 2, "bob"), b"seed", b"entropy"));
    assert_ne!(key, ViewingKey::new(&env(1, 2, "alice"), b"other", b"entropy"));
    assert_ne!(key, ViewingKey::new(&env(1, 2, "alice"), b"seed", b"other"));
    // height and time are written with a fixed width, so one cannot pass for the other
    assert_ne!(
        ViewingKey::new(&env(1, 0, "alice"), b"seed", b"entropy"),
        ViewingKey::new(&env(0, 1 << 56, "alice"), b"seed", b"entropy")
    );
}

#[test]
fn the_record_of_a_key_is_its_digest_under_the_accounts_key() {
    let mut storage = MemoryStorage::new();
    assert_eq!(read_viewing_key(&storage, b"alice"), None);
    write_viewing_key(&mut storage, b"alice", &ViewingKey("k1".to_string()));
    assert_eq!(read_viewing_key(&storage, b"alice"), Some(SHA_256_OF_K1.to_vec()));
    assert_eq!(read_viewing_key(&storage, b"bob"), None);
    assert_eq!(read_viewing_key(&storage, b"alic"), None);
    assert_eq!(make_viewing_key_key(b"alice"), b"\x00\x0aviewingkeyalice".to_vec());
    assert_eq!(storage.get(b"\x00\x0aviewingkeyalice"), Some(SHA_256_OF_K1.to_vec()));
}

#[test]
fn writing_a_key_again_replaces_the_record() {
    let mut storage = MemoryStorage::new();
    write_viewing_key(&mut storage, b"alice", &ViewingKey("k1".to_string()));
    write_viewing_key(&mut storage, b"bob", &ViewingKey("k1".to_string()));
    write_viewing_key(&mut storage, b"alice", &ViewingKey("test".to_string()));
    assert_eq!(read_viewing_key(&storage, b"alice"), Some(SHA_256_OF_TEST.to_vec()));
    assert_eq!(read_viewing_key(&storage, b"bob"), Some(SHA_256_OF_K1.to_vec()));
    let record = read_viewing_key(&storage, b"alice").unwrap();
    assert!(ViewingKey("test".to_string()).check_viewing_key(&record));
    assert!(!ViewingKey("k1".to_string()).check_viewing_key(&record));
}
