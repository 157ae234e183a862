//! The contract's entry points: setting it up, handling requests that
//! write, and answering queries behind the viewing key check.

use crate::append_log::{appended, initialized, lemma_appended, log_len, log_readable};
use crate::bytes::copy_range;
use crate::crypto::{base64_encode, base64_of, sha_256, sha_256_of, MAX_BASE64_INPUT};
use crate::error::ContractError;
use crate::keys::CONFIG_KEY;
use crate::msg::{
    HandleAnswer, HandleMsg, HandleResponse, InitMsg, InitResponse, MessageResponse, QueryMsg,
};
use crate::state::{
    config, create_empty_collection, get_messages, lemma_create_isolated, lemma_issue_isolated,
    lemma_issued_key_verifies, lemma_send_isolated, lemma_sent, load, message_views, messages,
    messages_readable, read_viewing_key, save, verifies, with_credential, write_viewing_key,
    Message, MessageView, State, StateView,
};
use crate::storage::{stored, Records};
use crate::types::{Account, Env};
use crate::viewing_key::{issued_key, Comparison, ViewingKey, VIEWING_KEY_SIZE};
use secret_cosmwasm_std::MemoryStorage;
use vstd::prelude::*;
use vstd::utf8::encode_utf8;

verus! {

/// The seed that the contract keeps: the digest of the base64 text of the
/// secret it was set up with.
pub open spec fn derived_seed(prng_seed: Seq<char>) -> Seq<u8> {
    sha_256_of(encode_utf8(base64_of(encode_utf8(prng_seed))))
}

/// The configuration that setting up writes.
pub open spec fn initial_state(env: Env, msg: InitMsg) -> StateView {
    StateView {
        owner: env.message.sender.id(),
        contract: env.contract.address.0@,
        prng_seed: derived_seed(msg.prng_seed@),
    }
}

/// The text of the viewing key that a request gets issued: the one made
/// from the seed in the configuration, the block, the sender and the
/// sender's entropy.
pub open spec fn key_for(records: Records, env: Env, entropy: Seq<char>) -> Seq<char> {
    issued_key(env, config(records, CONFIG_KEY@)->0.prng_seed, encode_utf8(entropy))
}

/// What a message sent in a request says: the path given, and the
/// sender's address.
pub open spec fn sent_message(env: Env, path: Seq<char>) -> MessageView {
    MessageView { path: path, sender: env.message.sender.address.0@ }
}

/// How issuing a viewing key to the sender of a request ends. With
/// `with_log`, the sender's log is set up as well.
///
/// It goes through exactly where the sender can be named, the
/// configuration can be read and, with `with_log`, the length of the sender's
/// log can be read. Then the digest of the new key is on record for the
/// sender, and the key is handed back. Else nothing changes.
pub open spec fn issuing(
    before: Records,
    after: Records,
    env: Env,
    entropy: Seq<char>,
    with_log: bool,
    result: Result<HandleResponse, ContractError>,
) -> bool {
    let sender = env.message.sender;
    match result {
        Ok(response) => {
            &&& sender.resolved()
            &&& config(before, CONFIG_KEY@) is Some
            &&& with_log ==> log_readable(before, sender.id())
            &&& after == with_credential(
                if with_log {
                    initialized(before, sender.id())
                } else {
                    before
                },
                sender.id(),
                key_for(before, env, entropy),
            )
            &&& response.is_plain()
            &&& response.data matches Some(HandleAnswer::CreateViewingKey { key })
            &&& key.0@ == key_for(before, env, entropy)
        },
        Err(e) => {
            &&& after == before
            &&& e == if sender.resolved() {
                ContractError::StorageFault
            } else {
                ContractError::InvalidAddress
            }
            &&& sender.resolved() ==> config(before, CONFIG_KEY@) is None || (with_log
                && !log_readable(before, sender.id()))
        },
    }
}

/// How sending a message ends.
///
/// It goes through exactly where the receiver can be named, the length of
/// its log can be read and the log holds fewer than `u32::MAX` messages.
/// Then the message stands last in the receiver's log. Else nothing changes.
pub open spec fn sending(
    before: Records,
    after: Records,
    env: Env,
    to: Account,
    path: Seq<char>,
    result: Result<HandleResponse, ContractError>,
) -> bool {
    match result {
        Ok(response) => {
            &&& to.resolved()
            &&& sent_message(env, path).encodable()
            &&& log_readable(before, to.id())
            &&& log_len(before, to.id()) < u32::MAX
            &&& after == appended(before, to.id(), sent_message(env, path).encoding())
            &&& messages(after, to.id()) == messages(before, to.id()).push(
                sent_message(env, path),
            )
            &&& response.is_plain()
            &&& response.data is None
        },
        Err(e) => {
            &&& after == before
            &&& e == if to.resolved() {
                ContractError::StorageFault
            } else {
                ContractError::InvalidAddress
            }
            &&& to.resolved() ==> !(log_readable(before, to.id()) && log_len(before, to.id())
                < u32::MAX)
        },
    }
}

/// The answer that a query for the messages of `behalf` is owed, when
/// `sender` asks and presents the key with text `key`.
///
/// `Unauthorized` where `behalf` cannot be named, has no key on record, or
/// has another one; the three are not told apart. With the right key,
/// `PermissionDenied` where `sender` is not `behalf`. Else the messages of
/// `behalf` and their number, or `StorageFault` where its log cannot be read.
pub open spec fn answer(
    records: Records,
    sender: Account,
    behalf: Account,
    key: Seq<char>,
) -> Result<(Seq<MessageView>, nat), ContractError> {
    if !(behalf.resolved() && verifies(records, behalf.id(), key)) {
        Err(ContractError::Unauthorized)
    } else if !sender.same(&behalf) {
        Err(ContractError::PermissionDenied)
    } else if !messages_readable(records, behalf.id()) {
        Err(ContractError::StorageFault)
    } else {
        Ok((messages(records, behalf.id()), log_len(records, behalf.id())))
    }
}

/// What a query's result says: the messages and their number, or the
/// error.
pub open spec fn said(result: Result<MessageResponse, ContractError>) -> Result<
    (Seq<MessageView>, nat),
    ContractError,
> {
    match result {
        Ok(response) => Ok((message_views(response.messages@), response.length as nat)),
        Err(e) => Err(e),
    }
}

/// Sets the contract up: derives the seed from the secret in `msg` and
/// writes the configuration, in place of any earlier one.
///
/// Fails with `InvalidAddress`, and changes nothing, exactly where the
/// sender cannot be named. The secret must be short enough for its base64
/// text to be allocated.
pub fn init(storage: &mut MemoryStorage, env: Env, msg: InitMsg) -> (result: Result<
    InitResponse,
    ContractError,
>)
    requires
        encode_utf8(msg.prng_seed@).len() <= MAX_BASE64_INPUT,
    ensures
        match result {
            Ok(response) => {
                &&& env.message.sender.resolved()
                &&& stored(*final(storage)) == stored(*old(storage)).insert(
                    CONFIG_KEY@,
                    initial_state(env, msg).encoding(),
                )
                &&& config(stored(*final(storage)), CONFIG_KEY@) == Some(initial_state(env, msg))
                &&& response.is_plain()
            },
            Err(e) => {
                &&& e == ContractError::InvalidAddress
                &&& !env.message.sender.resolved()
                &&& stored(*final(storage)) == stored(*old(storage))
            },
        },
{
    let owner: Vec<u8> = match env.message.sender.name() {
        Some(bytes) => copy_range(bytes, 0, bytes.len()),
        None => {
            return Err(ContractError::InvalidAddress);
        },
    };
    assert(owner@ =~= env.message.sender.id());
    let encoded: String = base64_encode(msg.prng_seed.as_str().as_bytes());
    let prng_seed: Vec<u8> = sha_256(encoded.as_str().as_bytes());
    let config = State { owner, contract: env.contract.address, prng_seed };
    save(storage, CONFIG_KEY.as_slice(), &config);
    Ok(InitResponse::default())
}

/// Issues a viewing key to the sender, as `try_init` and
/// `try_create_viewing_key` do.
fn issue(storage: &mut MemoryStorage, env: Env, entropy: String, with_log: bool) -> (result:
    Result<HandleResponse, ContractError>)
    ensures
        issuing(stored(*old(storage)), stored(*final(storage)), env, entropy@, with_log, result),
{
    let message_sender: Vec<u8> = match env.message.sender.name() {
        Some(bytes) => copy_range(bytes, 0, bytes.len()),
        None => {
            return Err(ContractError::InvalidAddress);
        },
    };
    assert(message_sender@ =~= env.message.sender.id());
    let config: State = match load(storage, CONFIG_KEY.as_slice()) {
        Ok(config) => config,
        Err(e) => {
            return Err(e);
        },
    };
    if with_log {
        match create_empty_collection(storage, &env.message.sender) {
            Ok(()) => {},
            Err(e) => {
                return Err(e);
            },
        }
    }
    let key = ViewingKey::new(&env, config.prng_seed.as_slice(), entropy.as_str().as_bytes());
    write_viewing_key(storage, message_sender.as_slice(), &key);
    Ok(
        HandleResponse {
            messages: Vec::new(),
            log: Vec::new(),
            data: Some(HandleAnswer::CreateViewingKey { key }),
        },
    )
}

/// Sets the sender's log up and issues a viewing key to the sender; see
/// `issuing`.
pub fn try_init(storage: &mut MemoryStorage, env: Env, entropy: String) -> (result: Result<
    HandleResponse,
    ContractError,
>)
    ensures
        issuing(stored(*old(storage)), stored(*final(storage)), env, entropy@, true, result),
{
    issue(storage, env, entropy, true)
}

/// Issues a new viewing key to the sender, in place of any earlier one;
/// see `issuing`.
pub fn try_create_viewing_key(storage: &mut MemoryStorage, env: Env, entropy: String) -> (result:
    Result<HandleResponse, ContractError>)
    ensures
        issuing(stored(*old(storage)), stored(*final(storage)), env, entropy@, false, result),
{
    issue(storage, env, entropy, false)
}

/// Appends a message with the given path, from the sender, to the log of
/// the account `to`; see `sending`. Any sender may write to any account.
pub fn send_message(storage: &mut MemoryStorage, env: Env, to: Account, path: String) -> (result:
    Result<HandleResponse, ContractError>)
    ensures
        sending(stored(*old(storage)), stored(*final(storage)), env, to, path@, result),
{
    let file = Message::new(path, env.message.sender.address.0.clone());
    match file.store_message(storage, &to) {
        Ok(()) => Ok(HandleResponse::default()),
        Err(e) => Err(e),
    }
}

/// Handles a request that may write: each kind of request goes to the
/// function that is named after it.
pub fn handle(storage: &mut MemoryStorage, env: Env, msg: HandleMsg) -> (result: Result<
    HandleResponse,
    ContractError,
>)
    ensures
        match msg {
            HandleMsg::InitAddress { entropy } => issuing(
                stored(*old(storage)),
                stored(*final(storage)),
                env,
                entropy@,
                true,
                result,
            ),
            HandleMsg::CreateViewingKey { entropy, padding } => issuing(
                stored(*old(storage)),
                stored(*final(storage)),
                env,
                entropy@,
                false,
                result,
            ),
            HandleMsg::SendMessage { to, path } => sending(
                stored(*old(storage)),
                stored(*final(storage)),
                env,
                to,
                path@,
                result,
            ),
        },
{
    match msg {
        HandleMsg::InitAddress { entropy } => try_init(storage, env, entropy),
        HandleMsg::CreateViewingKey { entropy, .. } => {
            try_create_viewing_key(storage, env, entropy)
        },
        HandleMsg::SendMessage { to, path } => send_message(storage, env, to, path),
    }
}

/// Checks the key presented for `account` against what is on record.
///
/// Where nothing is on record, the account cannot be named, or the record
/// has not the size of a digest, the key is compared with a record of zeros
/// all the same, and the outcome is dropped. So the check compares as many
/// byte pairs whether or not the account has a key, and whether or not the
/// key is right.
pub fn authenticate(storage: &MemoryStorage, account: &Account, key: &ViewingKey) -> (outcome:
    Comparison)
    ensures
        outcome.equal == (account.resolved() && verifies(stored(*storage), account.id(), key.0@)),
        outcome.steps == VIEWING_KEY_SIZE,
{
    let expected_key: Option<Vec<u8>> = match account.name() {
        Some(canonical_addr) => read_viewing_key(storage, canonical_addr),
        None => None,
    };
    let placeholder: [u8; 32] = [0u8; VIEWING_KEY_SIZE];
    match expected_key {
        Some(record) => {
            if record.len() == VIEWING_KEY_SIZE {
                key.check_viewing_key_counted(record.as_slice())
            } else {
                let dropped: Comparison = key.check_viewing_key_counted(placeholder.as_slice());
                Comparison { equal: false, steps: dropped.steps }
            }
        },
        None => {
            let dropped: Comparison = key.check_viewing_key_counted(placeholder.as_slice());
            Comparison { equal: false, steps: dropped.steps }
        },
    }
}

/// Reads the messages of `behalf` for the sender of the request, who has
/// presented the right key for `behalf`: only `behalf` itself may read.
fn query_messages(storage: &MemoryStorage, env: Env, behalf: &Account) -> (result: Result<
    MessageResponse,
    ContractError,
>)
    ensures
        said(result) == if !env.message.sender.same(behalf) {
            Err::<(Seq<MessageView>, nat), ContractError>(ContractError::PermissionDenied)
        } else if !messages_readable(stored(*storage), behalf.id()) {
            Err(ContractError::StorageFault)
        } else {
            Ok((messages(stored(*storage), behalf.id()), log_len(stored(*storage), behalf.id())))
        },
{
    let equal: bool = env.message.sender.same_as(behalf);
    if equal {
        let messages: Vec<Message> = match get_messages(storage, behalf) {
            Ok(msgs) => msgs,
            Err(e) => {
                return Err(e);
            },
        };
        let len: u32 = Message::len(storage, behalf);
        Ok(MessageResponse { messages, length: len })
    } else {
        Err(ContractError::PermissionDenied)
    }
}

/// Answers a query that needs a viewing key: checks the key for each
/// account that the query names, and answers only where it is right.
fn authenticated_queries(storage: &MemoryStorage, env: Env, msg: QueryMsg) -> (result: Result<
    MessageResponse,
    ContractError,
>)
    ensures
        said(result) == answer(stored(*storage), env.message.sender, msg.behalf(), msg.key()),
{
    let (addresses, key) = msg.get_validation_params();
    let mut i: usize = 0;
    while i < addresses.len()
        invariant
            i <= addresses@.len(),
            addresses@.len() == 1,
            *addresses@[0] == msg.behalf(),
            key.0@ == msg.key(),
            i == 1 ==> !(msg.behalf().resolved() && verifies(
                stored(*storage),
                msg.behalf().id(),
                msg.key(),
            )),
        decreases addresses@.len() - i,
    {
        let address: &Account = addresses[i];
        if authenticate(storage, address, &key).equal {
            return match &msg {
                QueryMsg::GetMessages { behalf, .. } => query_messages(storage, env, behalf),
            };
        }
        i = i + 1;
    }
    Err(ContractError::Unauthorized)
}

/// Answers a query; see `answer`.
pub fn query(storage: &MemoryStorage, env: Env, msg: QueryMsg) -> (result: Result<
    MessageResponse,
    ContractError,
>)
    ensures
        said(result) == answer(stored(*storage), env.message.sender, msg.behalf(), msg.key()),
{
    authenticated_queries(storage, env, msg)
}

/// Only the account itself may read: with the right key for `behalf`, the
/// sender gets the messages of `behalf` where it is `behalf`, and
/// `PermissionDenied` where it is any other account.
pub proof fn lemma_self_access_only(
    records: Records,
    sender: Account,
    behalf: Account,
    key: Seq<char>,
)
    requires
        behalf.resolved(),
        verifies(records, behalf.id(), key),
    ensures
        sender.same(&behalf) && messages_readable(records, behalf.id()) ==> answer(
            records,
            sender,
            behalf,
            key,
        ) == Ok::<(Seq<MessageView>, nat), ContractError>(
            (messages(records, behalf.id()), log_len(records, behalf.id())),
        ),
        !sender.same(&behalf) ==> answer(records, sender, behalf, key) == Err::<
            (Seq<MessageView>, nat),
            ContractError,
        >(ContractError::PermissionDenied),
{
}

/// Without the right key the answer is `Unauthorized`, whoever asks and
/// whatever the reason: an account that cannot be named, one that has no
/// key on record, and one that has another key all get the same answer.
pub proof fn lemma_unauthorized_hides_cause(
    records: Records,
    sender: Account,
    behalf: Account,
    key: Seq<char>,
)
    requires
        !behalf.resolved() || !verifies(records, behalf.id(), key),
    ensures
        answer(records, sender, behalf, key) == Err::<(Seq<MessageView>, nat), ContractError>(
            ContractError::Unauthorized,
        ),
{
}

/// The key that a request was issued opens the sender's own messages:
/// right after issuing, a query by the sender with that key is answered
/// with the messages that the sender had.
pub proof fn lemma_issued_key_reads(
    before: Records,
    after: Records,
    env: Env,
    entropy: Seq<char>,
    with_log: bool,
    result: Result<HandleResponse, ContractError>,
)
    requires
        issuing(before, after, env, entropy, with_log, result),
        result is Ok,
        messages_readable(before, env.message.sender.id()),
    ensures
        answer(after, env.message.sender, env.message.sender, key_for(before, env, entropy))
            == Ok::<(Seq<MessageView>, nat), ContractError>(
            (
                messages(before, env.message.sender.id()),
                log_len(before, env.message.sender.id()),
            ),
        ),
{
    let id = env.message.sender.id();
    let key = key_for(before, env, entropy);
    let middle = if with_log {
        initialized(before, id)
    } else {
        before
    };
    if with_log {
        lemma_create_isolated(before, id, id);
    }
    lemma_issue_isolated(middle, id, key, id);
    lemma_issued_key_verifies(middle, id, key);
}

/// A message that was sent is read back last: after sending to an account
/// whose messages can be read, a query by that account with its key is
/// answered with the earlier messages and the new one behind them.
pub proof fn lemma_sent_message_reads(
    before: Records,
    after: Records,
    env: Env,
    to: Account,
    path: Seq<char>,
    result: Result<HandleResponse, ContractError>,
    key: Seq<char>,
)
    requires
        sending(before, after, env, to, path, result),
        result is Ok,
        messages_readable(before, to.id()),
        verifies(before, to.id(), key),
    ensures
        answer(after, to, to, key) == Ok::<(Seq<MessageView>, nat), ContractError>(
            (
                messages(before, to.id()).push(sent_message(env, path)),
                log_len(before, to.id()) + 1,
            ),
        ),
{
    let message = sent_message(env, path);
    lemma_sent(before, to.id(), message);
    lemma_send_isolated(before, to.id(), message.encoding(), to.id());
    lemma_appended(before, to.id(), message.encoding());
}

} // verus!
