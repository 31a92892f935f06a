//! Core of a small peer-to-peer proof-of-work coin node.
//!
//! The library holds the verified logic of the node: the block chain with
//! its linkage and proof-of-work rules, the transaction model with its
//! signature payload, the priority mempool, the wire-message envelope with
//! its de-duplication counter, and the line framing of the byte stream.
//! Sockets, files and the operator console live outside the library and
//! hand it plain values.

#![verifier::loop_isolation(false)]

pub mod amount;
pub mod block;
pub mod chain;
pub mod crypto;
pub mod digits;
pub mod errors;
pub mod framing;
pub mod hex;
pub mod json;
pub mod mempool;
pub mod messages;
pub mod node;
pub mod pool;
pub mod strutil;
pub mod transaction;
pub mod wallet;
