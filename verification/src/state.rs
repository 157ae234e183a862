//! What the contract keeps in the store: its configuration, one viewing key
//! record per account, and one log of messages per account.

use crate::append_log::{
    append, appended, create, entries, initialized, lemma_append_isolated, lemma_appended,
    lemma_initialized, lemma_log_frame, len, log_entries, log_intact, log_len, log_readable,
    payloads,
};
use crate::bytes::lemma_le64_round_trip;
use crate::error::ContractError;
use crate::frame::{
    field, field_at, lemma_field_at_unique, lemma_field_in_place, put_field, string_from_utf8,
    take_field,
};
use crate::keys::{
    is_log_key, lemma_log_keys_disjoint, lemma_log_keys_distinct, lemma_record_kinds_disjoint,
    lemma_viewing_key_keys_injective, log_item_key, log_len_key, make_viewing_key_key,
    viewing_key_key, CONFIG_KEY, MAX_NAMESPACE_LEN,
};
use crate::storage::{storage_get, storage_set, stored, Records};
use crate::types::{Account, HumanAddr};
use crate::viewing_key::{hashed, ViewingKey};
use secret_cosmwasm_std::MemoryStorage;
use vstd::prelude::*;
use vstd::utf8::{encode_utf8, encode_utf8_decode_utf8, encode_utf8_valid_utf8, valid_utf8};

verus! {

/// A message: the path of what was sent, and who sent it.
#[derive(Clone, Debug, PartialEq, Eq)]
pub struct Message {
    pub path: String,
    pub sender: String,
}

/// What a message says.
#[verifier::ext_equal]
pub struct MessageView {
    pub path: Seq<char>,
    pub sender: Seq<char>,
}

impl MessageView {
    /// Whether the lengths of both texts can be written down.
    pub open spec fn encodable(self) -> bool {
        &&& encode_utf8(self.path).len() <= u64::MAX
        &&& encode_utf8(self.sender).len() <= u64::MAX
    }

    /// The bytes that stand for the message in a log: the path, then the
    /// sender, each in UTF-8 behind its length.
    pub open spec fn encoding(self) -> Seq<u8> {
        field(encode_utf8(self.path)) + field(encode_utf8(self.sender))
    }
}

impl View for Message {
    type V = MessageView;

    open spec fn view(&self) -> MessageView {
        MessageView { path: self.path@, sender: self.sender@ }
    }
}

/// Whether `bytes` stand for a message.
pub open spec fn is_message(bytes: Seq<u8>) -> bool {
    exists|message: MessageView| message.encodable() && #[trigger] message.encoding() == bytes
}

/// The message that `bytes` stand for.
pub open spec fn decoded(bytes: Seq<u8>) -> MessageView {
    choose|message: MessageView| message.encodable() && #[trigger] message.encoding() == bytes
}

/// What the messages in a vector say.
pub open spec fn message_views(items: Seq<Message>) -> Seq<MessageView> {
    Seq::new(items.len(), |i: int| items[i]@)
}

/// Whether every entry of the log of `account` can be read back as a
/// message.
pub open spec fn messages_readable(records: Records, account: Seq<u8>) -> bool {
    &&& log_intact(records, account)
    &&& forall|i: int|
        0 <= i < log_len(records, account) ==> is_message(
            #[trigger] log_entries(records, account)[i],
        )
}

/// The messages in the log of `account`, oldest first.
pub open spec fn messages(records: Records, account: Seq<u8>) -> Seq<MessageView> {
    Seq::new(log_len(records, account), |i: int| decoded(log_entries(records, account)[i]))
}

/// Two messages with the same bytes say the same.
pub proof fn lemma_encoding_injective(first: MessageView, second: MessageView)
    requires
        first.encodable(),
        second.encodable(),
        first.encoding() == second.encoding(),
    ensures
        first == second,
{
    let bytes = first.encoding();
    let empty = Seq::<u8>::empty();
    lemma_field_in_place(empty, encode_utf8(first.path), field(encode_utf8(first.sender)));
    lemma_field_in_place(empty, encode_utf8(second.path), field(encode_utf8(second.sender)));
    assert(empty + field(encode_utf8(first.path)) + field(encode_utf8(first.sender)) =~= bytes);
    assert(empty + field(encode_utf8(second.path)) + field(encode_utf8(second.sender)) =~= bytes);
    lemma_field_at_unique(bytes, 0, encode_utf8(first.path), encode_utf8(second.path));
    encode_utf8_decode_utf8(first.path);
    encode_utf8_decode_utf8(second.path);
    let head = field(encode_utf8(first.path));
    lemma_field_in_place(head, encode_utf8(first.sender), empty);
    lemma_field_in_place(head, encode_utf8(second.sender), empty);
    assert(head + field(encode_utf8(first.sender)) + empty =~= bytes);
    assert(head + field(encode_utf8(second.sender)) + empty =~= bytes);
    lemma_field_at_unique(
        bytes,
        head.len() as int,
        encode_utf8(first.sender),
        encode_utf8(second.sender),
    );
    encode_utf8_decode_utf8(first.sender);
    encode_utf8_decode_utf8(second.sender);
    assert(first.path =~= second.path);
    assert(first.sender =~= second.sender);
}

/// Reading back what was written gives the message that was written.
pub proof fn lemma_decoded_encoding(message: MessageView)
    requires
        message.encodable(),
    ensures
        is_message(message.encoding()),
        decoded(message.encoding()) == message,
{
    lemma_encoding_injective(decoded(message.encoding()), message);
}

impl Message {
    /// A message with the given path and sender.
    pub fn new(path: String, sender: String) -> (message: Self)
        ensures
            message.path == path,
            message.sender == sender,
    {
        Message { path, sender }
    }

    /// The bytes that stand for this message in a log.
    pub fn encode(&self) -> (bytes: Vec<u8>)
        ensures
            self@.encodable(),
            bytes@ == self@.encoding(),
    {
        let path: &[u8] = self.path.as_str().as_bytes();
        let sender: &[u8] = self.sender.as_str().as_bytes();
        assert(path@.len() == path.len() && sender@.len() == sender.len());
        let mut bytes: Vec<u8> = Vec::new();
        put_field(&mut bytes, path);
        put_field(&mut bytes, sender);
        assert(bytes@ =~= self@.encoding());
        bytes
    }

    /// The message that `bytes` stand for; `None` exactly where they stand
    /// for none.
    pub fn decode(bytes: &[u8]) -> (message: Option<Self>)
        ensures
            message is Some == is_message(bytes@),
            message matches Some(m) ==> m@.encodable() && m@.encoding() == bytes@ && m@
                == decoded(bytes@),
    {
        let ghost empty = Seq::<u8>::empty();
        proof {
            assert forall|m: MessageView|
                m.encodable() && #[trigger] m.encoding() == bytes@ implies field_at(
                bytes@,
                0,
                encode_utf8(m.path),
            ) && field_at(
                bytes@,
                8 + encode_utf8(m.path).len() as int,
                encode_utf8(m.sender),
            ) && bytes@.len() == 16 + encode_utf8(m.path).len() + encode_utf8(m.sender).len() by {
                let head = field(encode_utf8(m.path));
                lemma_field_in_place(empty, encode_utf8(m.path), field(encode_utf8(m.sender)));
                lemma_field_in_place(head, encode_utf8(m.sender), empty);
                assert(empty + head + field(encode_utf8(m.sender)) =~= bytes@);
                assert(head + field(encode_utf8(m.sender)) + empty =~= bytes@);
                lemma_le64_round_trip(encode_utf8(m.path).len() as u64);
                lemma_le64_round_trip(encode_utf8(m.sender).len() as u64);
            }
        }
        let (path_bytes, next) = match take_field(bytes, 0) {
            Some(found) => found,
            None => {
                return None;
            },
        };
        let (sender_bytes, end) = match take_field(bytes, next) {
            Some(found) => found,
            None => {
                proof {
                    assert forall|m: MessageView|
                        m.encodable() implies #[trigger] m.encoding() != bytes@ by {
                        if m.encoding() == bytes@ {
                            lemma_field_at_unique(bytes@, 0, encode_utf8(m.path), path_bytes@);
                        }
                    }
                }
                return None;
            },
        };
        let ghost path_raw = path_bytes@;
        let ghost sender_raw = sender_bytes@;
        proof {
            assert forall|m: MessageView|
                m.encodable() && #[trigger] m.encoding() == bytes@ implies encode_utf8(m.path)
                == path_raw && encode_utf8(m.sender) == sender_raw && end == bytes@.len() by {
                lemma_field_at_unique(bytes@, 0, encode_utf8(m.path), path_raw);
                lemma_field_at_unique(bytes@, next as int, encode_utf8(m.sender), sender_raw);
            }
            assert forall|m: MessageView|
                m.encodable() && #[trigger] m.encoding() == bytes@ implies valid_utf8(
                path_raw,
            ) && valid_utf8(sender_raw) by {
                encode_utf8_valid_utf8(m.path);
                encode_utf8_valid_utf8(m.sender);
            }
        }
        if end != bytes.len() {
            return None;
        }
        let path: String = match string_from_utf8(path_bytes) {
            Some(text) => text,
            None => {
                return None;
            },
        };
        let sender: String = match string_from_utf8(sender_bytes) {
            Some(text) => text,
            None => {
                return None;
            },
        };
        let message = Message { path, sender };
        proof {
            lemma_field_in_place(empty, path_raw, field(sender_raw));
            assert(bytes@ =~= bytes@.subrange(0, next as int) + bytes@.subrange(
                next as int,
                end as int,
            ));
            assert(message@.encoding() =~= bytes@);
            lemma_decoded_encoding(message@);
        }
        Some(message)
    }
}

/// The contract's configuration.
#[derive(Clone, Debug, PartialEq, Eq)]
pub struct State {
    /// The canonical form of the address that set the contract up.
    pub owner: Vec<u8>,
    /// The contract's own address.
    pub contract: HumanAddr,
    /// The secret that every viewing key is derived from.
    pub prng_seed: Vec<u8>,
}

/// What a configuration holds.
#[verifier::ext_equal]
pub struct StateView {
    pub owner: Seq<u8>,
    pub contract: Seq<char>,
    pub prng_seed: Seq<u8>,
}

impl StateView {
    /// Whether the lengths of all three values can be written down.
    pub open spec fn encodable(self) -> bool {
        &&& self.owner.len() <= u64::MAX
        &&& encode_utf8(self.contract).len() <= u64::MAX
        &&& self.prng_seed.len() <= u64::MAX
    }

    /// The bytes that stand for the configuration in the store: owner,
    /// contract address in UTF-8, and seed, each behind its length.
    pub open spec fn encoding(self) -> Seq<u8> {
        field(self.owner) + field(encode_utf8(self.contract)) + field(self.prng_seed)
    }
}

impl View for State {
    type V = StateView;

    open spec fn view(&self) -> StateView {
        StateView { owner: self.owner@, contract: self.contract.0@, prng_seed: self.prng_seed@ }
    }
}

/// Whether `bytes` stand for a configuration.
pub open spec fn is_state(bytes: Seq<u8>) -> bool {
    exists|state: StateView| state.encodable() && #[trigger] state.encoding() == bytes
}

/// The configuration that `bytes` stand for.
pub open spec fn decoded_state(bytes: Seq<u8>) -> StateView {
    choose|state: StateView| state.encodable() && #[trigger] state.encoding() == bytes
}

/// Where the three values of a configuration stand in its bytes.
proof fn lemma_state_layout(state: StateView)
    requires
        state.encodable(),
    ensures
        field_at(state.encoding(), 0, state.owner),
        field_at(state.encoding(), 8 + state.owner.len() as int, encode_utf8(state.contract)),
        field_at(
            state.encoding(),
            16 + state.owner.len() as int + encode_utf8(state.contract).len() as int,
            state.prng_seed,
        ),
        state.encoding().len() == 24 + state.owner.len() + encode_utf8(state.contract).len()
            + state.prng_seed.len(),
{
    let empty = Seq::<u8>::empty();
    let bytes = state.encoding();
    let first = field(state.owner);
    let second = field(encode_utf8(state.contract));
    let third = field(state.prng_seed);
    lemma_le64_round_trip(state.owner.len() as u64);
    lemma_le64_round_trip(encode_utf8(state.contract).len() as u64);
    lemma_le64_round_trip(state.prng_seed.len() as u64);
    lemma_field_in_place(empty, state.owner, second + third);
    assert(empty + first + (second + third) =~= bytes);
    lemma_field_in_place(first, encode_utf8(state.contract), third);
    assert(first + second + third =~= bytes);
    lemma_field_in_place(first + second, state.prng_seed, empty);
    assert(first + second + third + empty =~= bytes);
}

/// Two configurations with the same bytes hold the same.
pub proof fn lemma_state_encoding_injective(first: StateView, second: StateView)
    requires
        first.encodable(),
        second.encodable(),
        first.encoding() == second.encoding(),
    ensures
        first == second,
{
    let bytes = first.encoding();
    lemma_state_layout(first);
    lemma_state_layout(second);
    lemma_field_at_unique(bytes, 0, first.owner, second.owner);
    lemma_field_at_unique(
        bytes,
        8 + first.owner.len() as int,
        encode_utf8(first.contract),
        encode_utf8(second.contract),
    );
    encode_utf8_decode_utf8(first.contract);
    encode_utf8_decode_utf8(second.contract);
    lemma_field_at_unique(
        bytes,
        16 + first.owner.len() as int + encode_utf8(first.contract).len() as int,
        first.prng_seed,
        second.prng_seed,
    );
    assert(first.owner =~= second.owner);
    assert(first.contract =~= second.contract);
    assert(first.prng_seed =~= second.prng_seed);
}

/// Reading back what was written gives the configuration that was written.
pub proof fn lemma_decoded_state_encoding(state: StateView)
    requires
        state.encodable(),
    ensures
        is_state(state.encoding()),
        decoded_state(state.encoding()) == state,
{
    lemma_state_encoding_injective(decoded_state(state.encoding()), state);
}

impl State {
    /// The bytes that stand for this configuration in the store.
    pub fn encode(&self) -> (bytes: Vec<u8>)
        ensures
            self@.encodable(),
            bytes@ == self@.encoding(),
    {
        let contract: &[u8] = self.contract.0.as_str().as_bytes();
        assert(contract@.len() == contract.len());
        assert(self.owner@.len() == self.owner.len());
        assert(self.prng_seed@.len() == self.prng_seed.len());
        let mut bytes: Vec<u8> = Vec::new();
        put_field(&mut bytes, self.owner.as_slice());
        put_field(&mut bytes, contract);
        put_field(&mut bytes, self.prng_seed.as_slice());
        assert(bytes@ =~= self@.encoding());
        bytes
    }

    /// The configuration that `bytes` stand for; `None` exactly where they
    /// stand for none.
    pub fn decode(bytes: &[u8]) -> (state: Option<Self>)
        ensures
            state is Some == is_state(bytes@),
            state matches Some(s) ==> s@.encodable() && s@.encoding() == bytes@ && s@
                == decoded_state(bytes@),
    {
        proof {
            assert forall|s: StateView|
                s.encodable() && #[trigger] s.encoding() == bytes@ implies field_at(
                bytes@,
                0,
                s.owner,
            ) && field_at(bytes@, 8 + s.owner.len() as int, encode_utf8(s.contract)) && field_at(
                bytes@,
                16 + s.owner.len() as int + encode_utf8(s.contract).len() as int,
                s.prng_seed,
            ) && bytes@.len() == 24 + s.owner.len() + encode_utf8(s.contract).len()
                + s.prng_seed.len() && valid_utf8(encode_utf8(s.contract)) by {
                lemma_state_layout(s);
                encode_utf8_valid_utf8(s.contract);
            }
        }
        let (owner, second) = match take_field(bytes, 0) {
            Some(found) => found,
            None => {
                return None;
            },
        };
        let ghost owner_raw = owner@;
        proof {
            assert forall|s: StateView|
                s.encodable() && #[trigger] s.encoding() == bytes@ implies s.owner == owner_raw by {
                lemma_field_at_unique(bytes@, 0, s.owner, owner_raw);
            }
        }
        let (contract_bytes, third) = match take_field(bytes, second) {
            Some(found) => found,
            None => {
                return None;
            },
        };
        let ghost contract_raw = contract_bytes@;
        proof {
            assert forall|s: StateView|
                s.encodable() && #[trigger] s.encoding() == bytes@ implies encode_utf8(s.contract)
                == contract_raw by {
                lemma_field_at_unique(
                    bytes@,
                    second as int,
                    encode_utf8(s.contract),
                    contract_raw,
                );
            }
        }
        let (prng_seed, end) = match take_field(bytes, third) {
            Some(found) => found,
            None => {
                return None;
            },
        };
        proof {
            assert forall|s: StateView|
                s.encodable() && #[trigger] s.encoding() == bytes@ implies s.prng_seed
                == prng_seed@ && end == bytes@.len() by {
                lemma_field_at_unique(bytes@, third as int, s.prng_seed, prng_seed@);
            }
        }
        if end != bytes.len() {
            return None;
        }
        let contract: String = match string_from_utf8(contract_bytes) {
            Some(text) => text,
            None => {
                return None;
            },
        };
        let state = State { owner, contract: HumanAddr(contract), prng_seed };
        proof {
            assert(bytes@ =~= bytes@.subrange(0, second as int) + bytes@.subrange(
                second as int,
                third as int,
            ) + bytes@.subrange(third as int, end as int));
            assert(state@.encoding() =~= bytes@);
            lemma_decoded_state_encoding(state@);
        }
        Some(state)
    }
}

/// The configuration in the store, where one stands under `key`.
pub open spec fn config(records: Records, key: Seq<u8>) -> Option<StateView> {
    if records.contains_key(key) && is_state(records[key]) {
        Some(decoded_state(records[key]))
    } else {
        None
    }
}

/// Writes the configuration under `key`, in place of what stood there.
pub fn save(storage: &mut MemoryStorage, key: &[u8], state: &State)
    ensures
        stored(*final(storage)) == stored(*old(storage)).insert(key@, state@.encoding()),
        config(stored(*final(storage)), key@) == Some(state@),
{
    let bytes: Vec<u8> = state.encode();
    proof {
        lemma_decoded_state_encoding(state@);
    }
    storage_set(storage, key, bytes.as_slice());
}

/// Reads the configuration that stands under `key`.
///
/// Fails with `StorageFault` exactly where nothing stands there, or
/// something that is no configuration.
pub fn load(storage: &MemoryStorage, key: &[u8]) -> (result: Result<State, ContractError>)
    ensures
        match result {
            Ok(state) => config(stored(*storage), key@) == Some(state@),
            Err(e) => e == ContractError::StorageFault && config(stored(*storage), key@) is None,
        },
{
    match storage_get(storage, key) {
        Some(bytes) => match State::decode(bytes.as_slice()) {
            Some(state) => Ok(state),
            None => Err(ContractError::StorageFault),
        },
        None => Err(ContractError::StorageFault),
    }
}

/// What is on record of the viewing key of `account`, if anything.
pub open spec fn credential(records: Records, account: Seq<u8>) -> Option<Seq<u8>> {
    if records.contains_key(viewing_key_key(account)) {
        Some(records[viewing_key_key(account)])
    } else {
        None
    }
}

/// The store after the key with text `key` was put on record for
/// `account`, in place of any earlier one.
pub open spec fn with_credential(
    records: Records,
    account: Seq<u8>,
    key: Seq<char>,
) -> Records {
    records.insert(viewing_key_key(account), hashed(key))
}

/// Whether the key with text `key` is the one on record for `account`.
pub open spec fn verifies(records: Records, account: Seq<u8>, key: Seq<char>) -> bool {
    credential(records, account) == Some(hashed(key))
}

/// Puts `key` on record for the account `owner`, in place of any earlier
/// key. Only the key's digest is kept.
pub fn write_viewing_key(storage: &mut MemoryStorage, owner: &[u8], key: &ViewingKey)
    ensures
        stored(*final(storage)) == with_credential(stored(*old(storage)), owner@, key.0@),
{
    let record_key: Vec<u8> = make_viewing_key_key(owner);
    let digest: Vec<u8> = key.to_hashed();
    storage_set(storage, record_key.as_slice(), digest.as_slice());
}

/// What is on record of the viewing key of the account `owner`; `None`
/// where no key was ever issued to it.
pub fn read_viewing_key(storage: &MemoryStorage, owner: &[u8]) -> (record: Option<Vec<u8>>)
    ensures
        record is Some == credential(stored(*storage), owner@) is Some,
        record matches Some(digest) ==> credential(stored(*storage), owner@) == Some(digest@),
{
    let record_key: Vec<u8> = make_viewing_key_key(owner);
    storage_get(storage, record_key.as_slice())
}

/// Sending puts the message last in the log and keeps all earlier ones.
pub proof fn lemma_sent(records: Records, account: Seq<u8>, message: MessageView)
    requires
        log_readable(records, account),
        log_len(records, account) < u32::MAX,
        message.encodable(),
    ensures
        messages(appended(records, account, message.encoding()), account) == messages(
            records,
            account,
        ).push(message),
        messages_readable(records, account) ==> messages_readable(
            appended(records, account, message.encoding()),
            account,
        ),
{
    let after = appended(records, account, message.encoding());
    lemma_appended(records, account, message.encoding());
    lemma_decoded_encoding(message);
    assert(messages(after, account) =~= messages(records, account).push(message));
    if messages_readable(records, account) {
        assert forall|i: int| 0 <= i < log_len(after, account) implies is_message(
            #[trigger] log_entries(after, account)[i],
        ) by {
            if i < log_len(records, account) {
                assert(is_message(log_entries(records, account)[i]));
            }
        }
    }
}

/// Appends `message` to the log of the account `for_address`.
///
/// Fails, and changes nothing, exactly where the account cannot be named
/// (`InvalidAddress`), or its log's length record cannot be read or the log
/// holds `u32::MAX` messages (`StorageFault`).
pub fn append_message(
    storage: &mut MemoryStorage,
    message: &Message,
    for_address: &Account,
) -> (result: Result<(), ContractError>)
    ensures
        match result {
            Ok(()) => {
                &&& for_address.resolved()
                &&& message@.encodable()
                &&& log_readable(stored(*old(storage)), for_address.id())
                &&& log_len(stored(*old(storage)), for_address.id()) < u32::MAX
                &&& stored(*final(storage)) == appended(
                    stored(*old(storage)),
                    for_address.id(),
                    message@.encoding(),
                )
                &&& messages(stored(*final(storage)), for_address.id()) == messages(
                    stored(*old(storage)),
                    for_address.id(),
                ).push(message@)
            },
            Err(e) => {
                &&& stored(*final(storage)) == stored(*old(storage))
                &&& e == if for_address.resolved() {
                    ContractError::StorageFault
                } else {
                    ContractError::InvalidAddress
                }
                &&& for_address.resolved() ==> !(log_readable(
                    stored(*old(storage)),
                    for_address.id(),
                ) && log_len(stored(*old(storage)), for_address.id()) < u32::MAX)
            },
        },
{
    let account: &[u8] = match for_address.name() {
        Some(bytes) => bytes,
        None => {
            return Err(ContractError::InvalidAddress);
        },
    };
    let payload: Vec<u8> = message.encode();
    match append(storage, account, payload.as_slice()) {
        Ok(_) => {
            proof {
                lemma_sent(stored(*old(storage)), account@, message@);
            }
            Ok(())
        },
        Err(e) => Err(e),
    }
}

/// Sets the log of the account `for_address` up without putting a message
/// in it. A log that exists keeps its messages.
///
/// Fails, and changes nothing, exactly where the account cannot be named
/// (`InvalidAddress`) or its log's length record cannot be read
/// (`StorageFault`).
pub fn create_empty_collection(storage: &mut MemoryStorage, for_address: &Account) -> (result:
    Result<(), ContractError>)
    ensures
        match result {
            Ok(()) => {
                &&& for_address.resolved()
                &&& log_readable(stored(*old(storage)), for_address.id())
                &&& stored(*final(storage)) == initialized(
                    stored(*old(storage)),
                    for_address.id(),
                )
            },
            Err(e) => {
                &&& stored(*final(storage)) == stored(*old(storage))
                &&& e == if for_address.resolved() {
                    ContractError::StorageFault
                } else {
                    ContractError::InvalidAddress
                }
                &&& for_address.resolved() ==> !log_readable(
                    stored(*old(storage)),
                    for_address.id(),
                )
            },
        },
{
    let account: &[u8] = match for_address.name() {
        Some(bytes) => bytes,
        None => {
            return Err(ContractError::InvalidAddress);
        },
    };
    create(storage, account)
}

/// The messages in the log of the account `behalf`, oldest first.
///
/// Fails exactly where the account cannot be named (`InvalidAddress`), or
/// its log is not intact or holds an entry that is no message
/// (`StorageFault`).
pub fn get_messages(storage: &MemoryStorage, behalf: &Account) -> (result: Result<
    Vec<Message>,
    ContractError,
>)
    ensures
        match result {
            Ok(items) => {
                &&& behalf.resolved()
                &&& messages_readable(stored(*storage), behalf.id())
                &&& message_views(items@) == messages(stored(*storage), behalf.id())
            },
            Err(e) => {
                &&& e == if behalf.resolved() {
                    ContractError::StorageFault
                } else {
                    ContractError::InvalidAddress
                }
                &&& behalf.resolved() ==> !messages_readable(stored(*storage), behalf.id())
            },
        },
{
    let account: &[u8] = match behalf.name() {
        Some(bytes) => bytes,
        None => {
            return Err(ContractError::InvalidAddress);
        },
    };
    let raw: Vec<Vec<u8>> = match entries(storage, account) {
        Ok(raw) => raw,
        Err(e) => {
            return Err(e);
        },
    };
    let ghost log = log_entries(stored(*storage), account@);
    let mut items: Vec<Message> = Vec::new();
    let mut index: usize = 0;
    while index < raw.len()
        invariant
            index <= raw@.len(),
            behalf.resolved(),
            account@ == behalf.id(),
            payloads(raw@) == log,
            log == log_entries(stored(*storage), account@),
            items@.len() == index,
            forall|i: int| 0 <= i < index ==> is_message(#[trigger] log[i]),
            forall|i: int| 0 <= i < index ==> (#[trigger] items@[i])@ == decoded(log[i]),
        decreases raw@.len() - index,
    {
        assert(raw@[index as int]@ == payloads(raw@)[index as int]);
        match Message::decode(raw[index].as_slice()) {
            Some(message) => {
                items.push(message);
            },
            None => {
                assert(raw@.len() == log.len());
                assert(!is_message(log_entries(stored(*storage), account@)[index as int]));
                return Err(ContractError::StorageFault);
            },
        }
        index = index + 1;
    }
    assert(raw@.len() == log.len());
    assert(message_views(items@) =~= messages(stored(*storage), account@));
    Ok(items)
}

impl Message {
    /// Appends this message to the log of the account `to`; see
    /// `append_message`.
    pub fn store_message(&self, storage: &mut MemoryStorage, to: &Account) -> (result: Result<
        (),
        ContractError,
    >)
        ensures
            match result {
                Ok(()) => {
                    &&& to.resolved()
                    &&& self@.encodable()
                    &&& log_readable(stored(*old(storage)), to.id())
                    &&& log_len(stored(*old(storage)), to.id()) < u32::MAX
                    &&& stored(*final(storage)) == appended(
                        stored(*old(storage)),
                        to.id(),
                        self@.encoding(),
                    )
                    &&& messages(stored(*final(storage)), to.id()) == messages(
                        stored(*old(storage)),
                        to.id(),
                    ).push(self@)
                },
                Err(e) => {
                    &&& stored(*final(storage)) == stored(*old(storage))
                    &&& e == if to.resolved() {
                        ContractError::StorageFault
                    } else {
                        ContractError::InvalidAddress
                    }
                    &&& to.resolved() ==> !(log_readable(stored(*old(storage)), to.id())
                        && log_len(stored(*old(storage)), to.id()) < u32::MAX)
                },
            },
    {
        append_message(storage, self, to)
    }

    /// The number of messages in the log of the account `for_address`; 0
    /// for an account that cannot be named or never got a message.
    pub fn len(storage: &MemoryStorage, for_address: &Account) -> (count: u32)
        ensures
            count == if for_address.resolved() {
                log_len(stored(*storage), for_address.id())
            } else {
                0
            },
    {
        match for_address.name() {
            Some(account) => len(storage, account),
            None => 0,
        }
    }
}

/// A change to records that are no key of the log of `account` leaves its
/// messages as they were.
pub proof fn lemma_messages_frame(
    before: Records,
    after: Records,
    account: Seq<u8>,
)
    requires
        forall|key: Seq<u8>|
            is_log_key(key, account) ==> (before.contains_key(key) == after.contains_key(key)
                && before[key] == after[key]),
    ensures
        log_len(after, account) == log_len(before, account),
        messages(after, account) == messages(before, account),
        messages_readable(after, account) == messages_readable(before, account),
{
    lemma_log_frame(before, after, account);
    assert(messages(after, account) =~= messages(before, account));
}

/// A key that was issued is accepted: once the key is on record for an
/// account, it verifies for that account.
pub proof fn lemma_issued_key_verifies(
    records: Records,
    account: Seq<u8>,
    key: Seq<char>,
)
    ensures
        verifies(with_credential(records, account, key), account, key),
{
}

/// Any other key is turned down: with one key on record for an account, a
/// key with another digest does not verify for it.
pub proof fn lemma_other_key_rejected(
    records: Records,
    account: Seq<u8>,
    key: Seq<char>,
    presented: Seq<char>,
)
    requires
        hashed(presented) != hashed(key),
    ensures
        !verifies(with_credential(records, account, key), account, presented),
{
}

/// No key verifies for an account that was never issued one.
pub proof fn lemma_never_issued_rejected(
    records: Records,
    account: Seq<u8>,
    presented: Seq<char>,
)
    requires
        credential(records, account) is None,
    ensures
        !verifies(records, account, presented),
{
}

/// Issuing again supersedes: the new key verifies, and the old one, where
/// its digest is another, no longer does.
pub proof fn lemma_reissue_supersedes(
    records: Records,
    account: Seq<u8>,
    old_key: Seq<char>,
    new_key: Seq<char>,
)
    ensures
        verifies(
            with_credential(with_credential(records, account, old_key), account, new_key),
            account,
            new_key,
        ),
        hashed(old_key) != hashed(new_key) ==> !verifies(
            with_credential(with_credential(records, account, old_key), account, new_key),
            account,
            old_key,
        ),
{
}

/// Issuing a key to one account changes no other account's key, nobody's
/// messages, and not the configuration.
pub proof fn lemma_issue_isolated(
    records: Records,
    account: Seq<u8>,
    key: Seq<char>,
    other: Seq<u8>,
)
    ensures
        other != account ==> credential(with_credential(records, account, key), other)
            == credential(records, other),
        log_len(with_credential(records, account, key), other) == log_len(records, other),
        messages(with_credential(records, account, key), other) == messages(records, other),
        messages_readable(with_credential(records, account, key), other) == messages_readable(
            records,
            other,
        ),
        config(with_credential(records, account, key), CONFIG_KEY@) == config(
            records,
            CONFIG_KEY@,
        ),
{
    let after = with_credential(records, account, key);
    if other != account {
        lemma_viewing_key_keys_injective(account, other);
    }
    assert forall|k: Seq<u8>| is_log_key(k, other) implies (records.contains_key(k)
        == after.contains_key(k) && records[k] == after[k]) by {
        lemma_record_kinds_disjoint(account, other, k);
    }
    lemma_messages_frame(records, after, other);
    assert(is_log_key(log_len_key(other), other));
    lemma_record_kinds_disjoint(account, other, log_len_key(other));
}

/// Sending a message to one account changes nobody else's messages, no
/// key on record, and not the configuration.
pub proof fn lemma_send_isolated(
    records: Records,
    account: Seq<u8>,
    payload: Seq<u8>,
    other: Seq<u8>,
)
    requires
        account.len() <= MAX_NAMESPACE_LEN,
        other.len() <= MAX_NAMESPACE_LEN,
    ensures
        other != account ==> {
            &&& log_len(appended(records, account, payload), other) == log_len(records, other)
            &&& messages(appended(records, account, payload), other) == messages(records, other)
            &&& messages_readable(appended(records, account, payload), other)
                == messages_readable(records, other)
        },
        credential(appended(records, account, payload), other) == credential(records, other),
        config(appended(records, account, payload), CONFIG_KEY@) == config(records, CONFIG_KEY@),
{
    let after = appended(records, account, payload);
    let n = log_len(records, account);
    assert(is_log_key(log_len_key(account), account));
    assert(is_log_key(log_item_key(account, n as u32), account));
    lemma_record_kinds_disjoint(other, account, log_len_key(account));
    lemma_record_kinds_disjoint(other, account, log_item_key(account, n as u32));
    if other != account {
        lemma_append_isolated(records, account, other, payload);
        assert(messages(after, other) =~= messages(records, other));
    }
}

/// Setting a log up changes nobody's messages, no key on record, and not
/// the configuration.
pub proof fn lemma_create_isolated(
    records: Records,
    account: Seq<u8>,
    other: Seq<u8>,
)
    requires
        account.len() <= MAX_NAMESPACE_LEN,
        other.len() <= MAX_NAMESPACE_LEN,
        log_readable(records, account),
    ensures
        log_len(initialized(records, account), other) == log_len(records, other),
        messages(initialized(records, account), other) == messages(records, other),
        messages_readable(initialized(records, account), other) == messages_readable(
            records,
            other,
        ),
        credential(initialized(records, account), other) == credential(records, other),
        config(initialized(records, account), CONFIG_KEY@) == config(records, CONFIG_KEY@),
{
    let after = initialized(records, account);
    assert(is_log_key(log_len_key(account), account));
    lemma_record_kinds_disjoint(other, account, log_len_key(account));
    if other != account {
        assert forall|k: Seq<u8>| is_log_key(k, other) implies (records.contains_key(k)
            == after.contains_key(k) && records[k] == after[k]) by {
            lemma_log_keys_disjoint(other, account, k);
        }
        lemma_messages_frame(records, after, other);
    } else {
        lemma_initialized(records, account);
        assert(messages(after, other) =~= messages(records, other));
        if messages_readable(records, account) {
            assert forall|i: int| 0 <= i < log_len(after, account) implies is_message(
                #[trigger] log_entries(after, account)[i],
            ) by {
                assert(is_message(log_entries(records, account)[i]));
            }
        }
        if messages_readable(after, account) {
            assert forall|i: int| 0 <= i < log_len(records, account) implies is_message(
                #[trigger] log_entries(records, account)[i],
            ) by {
                assert(is_message(log_entries(after, account)[i]));
            }
            assert(log_intact(records, account)) by {
                assert forall|i: int|
                    0 <= i < log_len(records, account) implies records.contains_key(
                    #[trigger] log_item_key(account, i as u32),
                ) by {
                    assert(after.contains_key(log_item_key(account, i as u32)));
                    lemma_log_keys_distinct(account, i as u32, 0);
                }
            }
        }
    }
}

} // verus!
