//! The requests that the contract takes and the answers that it gives.

use crate::state::Message;
use crate::types::Account;
use crate::viewing_key::ViewingKey;
use vstd::prelude::*;

verus! {

/// The request that sets the contract up.
#[derive(Clone, Debug, PartialEq, Eq)]
pub struct InitMsg {
    /// The secret that the contract derives its seed from.
    pub prng_seed: String,
}

/// A request that may change what the contract keeps.
#[derive(Clone, Debug, PartialEq, Eq)]
pub enum HandleMsg {
    /// Sets the sender's log up and issues a viewing key to the sender.
    InitAddress { entropy: String },
    /// Issues a new viewing key to the sender, in place of any earlier one.
    CreateViewingKey { entropy: String, padding: Option<String> },
    /// Appends a message to the log of the account `to`.
    SendMessage { to: Account, path: String },
}

/// A request that only reads.
#[derive(Clone, Debug, PartialEq, Eq)]
pub enum QueryMsg {
    /// Asks for the messages of the account `behalf`, presenting `key` as
    /// its viewing key.
    GetMessages { behalf: Account, key: String },
}

/// What a `HandleMsg` is answered with.
#[derive(Clone, Debug, PartialEq, Eq)]
pub enum HandleAnswer {
    DefaultAnswer { status: ResponseStatus },
    /// The viewing key that was issued. It is handed out here and nowhere
    /// else: the contract keeps only its digest.
    CreateViewingKey { key: ViewingKey },
}

/// A viewing key that a caller may or may not have.
#[derive(Clone, Debug, PartialEq, Eq)]
pub struct ViewingPermissions {
    pub key: Option<String>,
}

/// The answer to `QueryMsg::GetMessages`: the messages of the account,
/// oldest first, and their number.
#[derive(Clone, Debug, PartialEq, Eq)]
pub struct MessageResponse {
    pub messages: Vec<Message>,
    pub length: u32,
}

/// What the contract hands back after it was set up. This contract asks
/// the host to dispatch nothing and to log nothing.
#[derive(Clone, Debug, PartialEq, Eq)]
pub struct InitResponse {
    pub messages: Vec<Vec<u8>>,
    pub log: Vec<(String, String)>,
}

/// What the contract hands back after a `HandleMsg`. This contract asks the
/// host to dispatch nothing and to log nothing; `data` holds the answer,
/// where the request has one.
#[derive(Clone, Debug, PartialEq, Eq)]
pub struct HandleResponse {
    pub messages: Vec<Vec<u8>>,
    pub log: Vec<(String, String)>,
    pub data: Option<HandleAnswer>,
}

impl InitResponse {
    /// Whether nothing is to be dispatched and nothing to be logged.
    pub open spec fn is_plain(&self) -> bool {
        self.messages@.len() == 0 && self.log@.len() == 0
    }
}

impl HandleResponse {
    /// Whether nothing is to be dispatched and nothing to be logged.
    pub open spec fn is_plain(&self) -> bool {
        self.messages@.len() == 0 && self.log@.len() == 0
    }
}

impl Default for InitResponse {
    fn default() -> (response: Self)
        ensures
            response.is_plain(),
    {
        InitResponse { messages: Vec::new(), log: Vec::new() }
    }
}

impl Default for HandleResponse {
    fn default() -> (response: Self)
        ensures
            response.is_plain(),
            response.data is None,
    {
        HandleResponse { messages: Vec::new(), log: Vec::new(), data: None }
    }
}

/// Whether a request went through.
#[derive(Clone, Copy, Debug, PartialEq, Eq, Structural)]
pub enum ResponseStatus {
    Success,
    Failure,
}

impl QueryMsg {
    /// The account on whose behalf the query is made.
    pub open spec fn behalf(self) -> Account {
        self->behalf
    }

    /// The text of the viewing key that the query presents.
    pub open spec fn key(self) -> Seq<char> {
        self->key@
    }

    /// The accounts whose viewing key the query has to match, and the key
    /// that it presents.
    pub fn get_validation_params(&self) -> (params: (Vec<&Account>, ViewingKey))
        ensures
            params.0@.len() == 1,
            *params.0@[0] == self.behalf(),
            params.1.0@ == self.key(),
    {
        match self {
            QueryMsg::GetMessages { behalf, key } => {
                let mut accounts: Vec<&Account> = Vec::new();
                accounts.push(behalf);
                (accounts, ViewingKey(key.clone()))
            },
        }
    }
}

} // verus!
