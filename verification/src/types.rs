//! Who and when: the account, address and block values that a request
//! arrives with.

use crate::bytes::slices_equal;
use crate::keys::MAX_NAMESPACE_LEN;
use vstd::prelude::*;

verus! {

/// A human-readable address.
#[derive(Clone, Debug, PartialEq, Eq)]
pub struct HumanAddr(pub String);

/// An address together with what canonicalizing it gave: the canonical
/// bytes that name the account, or `None` where the address has no canonical
/// form.
#[derive(Clone, Debug, PartialEq, Eq)]
pub struct Account {
    pub address: HumanAddr,
    pub canonical: Option<Vec<u8>>,
}

impl Account {
    /// Whether the account can be named: it has a canonical form, short
    /// enough to stand in a key.
    pub open spec fn resolved(&self) -> bool {
        self.canonical matches Some(bytes) && bytes@.len() <= MAX_NAMESPACE_LEN
    }

    /// The canonical bytes that name the account.
    pub open spec fn id(&self) -> Seq<u8>
        recommends
            self.resolved(),
    {
        self.canonical->0@
    }

    /// Whether this account and `other` are one account: both can be
    /// named, and by the same bytes.
    pub open spec fn same(&self, other: &Account) -> bool {
        self.resolved() && other.resolved() && self.id() == other.id()
    }

    /// Whether this account and `other` are one account.
    pub fn same_as(&self, other: &Account) -> (same: bool)
        ensures
            same == self.same(other),
    {
        match (self.name(), other.name()) {
            (Some(mine), Some(theirs)) => slices_equal(mine, theirs),
            _ => false,
        }
    }

    /// The canonical bytes that name the account, where it can be named.
    pub fn name(&self) -> (bytes: Option<&[u8]>)
        ensures
            bytes is Some == self.resolved(),
            bytes matches Some(b) ==> b@ == self.id(),
    {
        match &self.canonical {
            Some(bytes) => {
                if bytes.len() <= MAX_NAMESPACE_LEN {
                    Some(bytes.as_slice())
                } else {
                    None
                }
            },
            None => None,
        }
    }
}

/// The block in which a request runs.
#[derive(Clone, Debug, PartialEq, Eq)]
pub struct BlockInfo {
    pub height: u64,
    /// Seconds since the epoch.
    pub time: u64,
}

/// Who sent a request.
#[derive(Clone, Debug, PartialEq, Eq)]
pub struct MessageInfo {
    pub sender: Account,
}

/// The contract that a request is addressed to.
#[derive(Clone, Debug, PartialEq, Eq)]
pub struct ContractInfo {
    pub address: HumanAddr,
}

/// The circumstances of one request.
#[derive(Clone, Debug, PartialEq, Eq)]
pub struct Env {
    pub block: BlockInfo,
    pub message: MessageInfo,
    pub contract: ContractInfo,
}

} // verus!
