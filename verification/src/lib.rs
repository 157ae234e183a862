//! A private, append-only message log per account, readable only by its
//! owner through a viewing key.
//!
//! Anyone may send a message to any account. To read, an account presents
//! the viewing key that it was issued; the contract keeps only the key's
//! digest, compares it without stopping at the first difference, and answers
//! only the account itself.
//!
//! Everything is kept in one key-value store (`storage`), under keys that the
//! records of different kinds and of different accounts cannot share
//! (`keys`). The logs are in `append_log`, the records and their formats in
//! `state` and `frame`, the keys in `viewing_key`, and the entry points in
//! `contract`.

pub mod append_log;
pub mod bytes;
pub mod contract;
pub mod crypto;
pub mod error;
pub mod frame;
pub mod keys;
pub mod msg;
pub mod state;
pub mod storage;
pub mod types;
pub mod viewing_key;
