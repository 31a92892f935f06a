//! Error kinds of the node.
//!
//! No error aborts the node: transport errors drop the peer, malformed
//! frames drop the message, invalid signatures drop the transaction, and
//! a chain linkage error makes the protocol ask the peers for a resync.

use vstd::prelude::*;

verus! {

/// What went wrong at the transport and session layer.
#[derive(Debug)]
pub enum ServerError {
    /// A peer broke the expected exchange at connection setup.
    Handshake(String),
    /// A peer went silent or closed the connection.
    Timeout(String),
    /// The socket itself failed; the text carries the reason.
    Io(String),
}

impl ServerError {
    #[allow(non_snake_case)]
    pub fn InvalidHandshake(p0: String) -> (r: ServerError)
        ensures
            r == ServerError::Handshake(p0),
    {
        ServerError::Handshake(p0)
    }

    #[allow(non_snake_case)]
    pub fn ConnectionClosed(p0: String) -> (r: ServerError)
        ensures
            r == ServerError::Timeout(p0),
    {
        ServerError::Timeout(p0)
    }

    #[allow(non_snake_case)]
    pub fn IoError(p0: String) -> (r: ServerError)
        ensures
            r == ServerError::Io(p0),
    {
        ServerError::Io(p0)
    }
}

/// Why a block was not appended to the chain.
#[derive(Debug)]
pub enum ChainError {
    /// The block's hash does not meet the proof-of-work target.
    InvalidPow,
    /// The block does not link onto the local tip; the caller should
    /// request a chain sync.
    StaleOrForked,
    /// The chain has no block yet, so nothing can link onto it.
    EmptyChain,
}

/// Why a transaction was rejected.
#[derive(Debug)]
pub enum TransactionError {
    /// The text is not a transaction object in the expected shape.
    Malformed,
    /// One of the carried public keys is not a readable RSA key.
    BadKey,
    /// The transfer amount is not a plain decimal number.
    BadAmount,
    /// The signature does not verify under the sender key.
    BadSignature,
}

} // verus!
