//! Authoritative state store of a blockchain node.
//!
//! The store persists accounts, spent-note nullifiers, created notes and block
//! headers, and answers the queries a block producer and state-syncing clients
//! need.  The tables live in [`db::Db`]; every query and every mutation is
//! specified by a contract over the table contents.  Cryptographic operations
//! (account hashing, delta application, Merkle tree roots) are delegated to an
//! outside library through the trusted declarations in [`crypto`].

pub mod types;
pub mod crypto;
pub mod db;
pub mod accounts;
pub mod nullifiers;
pub mod notes;
pub mod headers;
pub mod apply;
pub mod sync;
pub mod genesis;
pub mod producer;
