//! Wire message payloads and the tagged envelope.
//!
//! Every message carries a 64-bit `id` assigned by the emitting node;
//! the router drops any enveloped message whose id it has already
//! seen. Handshake and info messages bypass that check.

use vstd::prelude::*;

use crate::block::Block;
use crate::crypto::now_timestamp;
use crate::transaction::SerializedTransaction;

verus! {

/// A block offered to the chain, with the bulk-transfer `force` flag.
pub struct BlockMessage {
    pub id: u64,
    pub block: Block,
    pub time_stamp: i64,
    pub force: bool,
}

impl BlockMessage {
    pub fn new(block: Block, force: bool) -> (r: BlockMessage)
        ensures
            r.id == 0,
            r.block == block,
            r.force == force,
    {
        BlockMessage { id: 0, block, time_stamp: now_timestamp(), force }
    }

    pub fn get_id(&self) -> (r: u64)
        ensures
            r == self.id,
    {
        self.id
    }

    pub fn set_id(&mut self, id: u64)
        ensures
            *final(self) == (BlockMessage { id, ..*old(self) }),
    {
        self.id = id;
    }

    pub fn is_force(&self) -> (r: bool)
        ensures
            r == self.force,
    {
        self.force
    }

    pub fn get_block(&self) -> (r: Block)
        ensures
            r@ == self.block@,
    {
        self.block.clone()
    }
}

pub struct TransactionMessage {
    pub id: u64,
    pub transaction: SerializedTransaction,
    pub time_stamp: i64,
}

impl TransactionMessage {
    pub fn new(transaction: SerializedTransaction) -> (r: TransactionMessage)
        ensures
            r.id == 0,
            r.transaction == transaction,
    {
        TransactionMessage { id: 0, transaction, time_stamp: now_timestamp() }
    }

    pub fn get_id(&self) -> (r: u64)
        ensures
            r == self.id,
    {
        self.id
    }

    pub fn set_id(&mut self, id: u64)
        ensures
            *final(self) == (TransactionMessage { id, ..*old(self) }),
    {
        self.id = id;
    }

    pub fn get_transaction(&self) -> (r: SerializedTransaction)
        ensures
            r == self.transaction,
    {
        self.transaction.clone()
    }
}

pub struct TextMessage {
    pub id: u64,
    pub message: String,
    pub time_stamp: i64,
}

impl TextMessage {
    pub fn new(message: String) -> (r: TextMessage)
        ensures
            r.id == 0,
            r.message == message,
    {
        TextMessage { id: 0, message, time_stamp: now_timestamp() }
    }

    pub fn get_id(&self) -> (r: u64)
        ensures
            r == self.id,
    {
        self.id
    }

    pub fn set_id(&mut self, id: u64)
        ensures
            *final(self) == (TextMessage { id, ..*old(self) }),
    {
        self.id = id;
    }

    pub fn get_text(&self) -> (r: String)
        ensures
            r@ == self.message@,
    {
        self.message.clone()
    }
}

/// The reply that closes the id handshake.
pub struct MessageAnswerFirstInfo {
    pub id: u64,
    pub time_stamp: i64,
}

impl MessageAnswerFirstInfo {
    pub fn new() -> (r: MessageAnswerFirstInfo)
        ensures
            r.id == 0,
    {
        MessageAnswerFirstInfo { id: 0, time_stamp: now_timestamp() }
    }

    pub fn get_id(&self) -> (r: u64)
        ensures
            r == self.id,
    {
        self.id
    }

    pub fn set_id(&mut self, id: u64)
        ensures
            *final(self) == (MessageAnswerFirstInfo { id, ..*old(self) }),
    {
        self.id = id;
    }
}

pub struct ChainMessage {
    pub id: u64,
    pub chain: Vec<Block>,
    pub time_stamp: i64,
}

impl ChainMessage {
    pub fn new(chain: Vec<Block>) -> (r: ChainMessage)
        ensures
            r.id == 0,
            r.chain == chain,
    {
        ChainMessage { id: 0, chain, time_stamp: now_timestamp() }
    }

    pub fn get_id(&self) -> (r: u64)
        ensures
            r == self.id,
    {
        self.id
    }

    pub fn set_id(&mut self, id: u64)
        ensures
            *final(self) == (ChainMessage { id, ..*old(self) }),
    {
        self.id = id;
    }

    pub fn get_chain(self) -> (r: Vec<Block>)
        ensures
            r == self.chain,
    {
        self.chain
    }
}

pub struct PeerMessage {
    pub id: u64,
    pub peer_address: String,
    pub time_stamp: i64,
}

impl PeerMessage {
    /// `peer_address` is an IP or host name; the node dials it on the
    /// default port.
    pub fn new(peer_address: String) -> (r: PeerMessage)
        ensures
            r.id == 0,
            r.peer_address == peer_address,
    {
        PeerMessage { id: 0, peer_address, time_stamp: now_timestamp() }
    }

    pub fn get_id(&self) -> (r: u64)
        ensures
            r == self.id,
    {
        self.id
    }

    pub fn set_id(&mut self, id: u64)
        ensures
            *final(self) == (PeerMessage { id, ..*old(self) }),
    {
        self.id = id;
    }

    pub fn get_peer(self) -> (r: String)
        ensures
            r == self.peer_address,
    {
        self.peer_address
    }
}

/// A request for the last `n` blocks of the chain.
pub struct LastNBlocksMessage {
    pub id: u64,
    pub n: usize,
}

impl LastNBlocksMessage {
    pub fn new(n: usize) -> (r: LastNBlocksMessage)
        ensures
            r.id == 0,
            r.n == n,
    {
        LastNBlocksMessage { id: 0, n }
    }

    pub fn get_id(&self) -> (r: u64)
        ensures
            r == self.id,
    {
        self.id
    }

    pub fn set_id(&mut self, id: u64)
        ensures
            *final(self) == (LastNBlocksMessage { id, ..*old(self) }),
    {
        self.id = id;
    }

    pub fn get_n(&self) -> (r: usize)
        ensures
            r == self.n,
    {
        self.n
    }
}

/// A request for the blocks created before a point in time.
pub struct BlocksBeforeMessage {
    pub id: u64,
    pub time_stamp: i64,
}

impl BlocksBeforeMessage {
    pub fn new(time_stamp: i64) -> (r: BlocksBeforeMessage)
        ensures
            r.id == 0,
            r.time_stamp == time_stamp,
    {
        BlocksBeforeMessage { id: 0, time_stamp }
    }

    pub fn get_id(&self) -> (r: u64)
        ensures
            r == self.id,
    {
        self.id
    }

    pub fn set_id(&mut self, id: u64)
        ensures
            *final(self) == (BlocksBeforeMessage { id, ..*old(self) }),
    {
        self.id = id;
    }

    pub fn get_time(&self) -> (r: i64)
        ensures
            r == self.time_stamp,
    {
        self.time_stamp
    }
}

/// The opening of the id handshake.
pub struct MessageFirstInfo {
    pub id: u64,
}

impl MessageFirstInfo {
    pub fn new() -> (r: MessageFirstInfo)
        ensures
            r.id == 0,
    {
        MessageFirstInfo { id: 0 }
    }

    pub fn get_id(&self) -> (r: u64)
        ensures
            r == self.id,
    {
        self.id
    }

    pub fn set_id(&mut self, id: u64)
        ensures
            *final(self) == (MessageFirstInfo { id }),
    {
        self.id = id;
    }
}

/// The kind of a message, without its payload.
pub enum MessageType {
    Raw,
    Block,
    Transaction,
    Text,
    MessageInfo,
    Chain,
    Peer,
    RequestLastNBlocks,
    RequestBlocksBefore,
    RequestMessageInfo,
}

/// The tagged envelope: every wire frame is one of these.
pub enum Message {
    RawMessage(String),
    ResponseBlockMessage(BlockMessage),
    ResponseTransactionMessage(TransactionMessage),
    ResponseTextMessage(TextMessage),
    ResponseMessageInfo(MessageAnswerFirstInfo),
    ResponseChainMessage(ChainMessage),
    ResponsePeerMessage(PeerMessage),
    RequestLastNBlocksMessage(LastNBlocksMessage),
    RequestBlocksBeforeMessage(BlocksBeforeMessage),
    RequestMessageInfo(MessageFirstInfo),
}

/// The envelope id of a message; a raw frame has none and reads as 0.
pub open spec fn msg_id(m: Message) -> u64 {
    match m {
        Message::RawMessage(_) => 0,
        Message::ResponseBlockMessage(msg) => msg.id,
        Message::ResponseTransactionMessage(msg) => msg.id,
        Message::ResponseTextMessage(msg) => msg.id,
        Message::ResponseMessageInfo(msg) => msg.id,
        Message::ResponseChainMessage(msg) => msg.id,
        Message::ResponsePeerMessage(msg) => msg.id,
        Message::RequestLastNBlocksMessage(msg) => msg.id,
        Message::RequestBlocksBeforeMessage(msg) => msg.id,
        Message::RequestMessageInfo(msg) => msg.id,
    }
}

/// The same message with its envelope id replaced; a raw frame stays
/// as it is.
pub open spec fn with_id(m: Message, id: u64) -> Message {
    match m {
        Message::RawMessage(s) => Message::RawMessage(s),
        Message::ResponseBlockMessage(msg) => Message::ResponseBlockMessage(
            BlockMessage { id, ..msg },
        ),
        Message::ResponseTransactionMessage(msg) => Message::ResponseTransactionMessage(
            TransactionMessage { id, ..msg },
        ),
        Message::ResponseTextMessage(msg) => Message::ResponseTextMessage(
            TextMessage { id, ..msg },
        ),
        Message::ResponseMessageInfo(msg) => Message::ResponseMessageInfo(
            MessageAnswerFirstInfo { id, ..msg },
        ),
        Message::ResponseChainMessage(msg) => Message::ResponseChainMessage(
            ChainMessage { id, ..msg },
        ),
        Message::ResponsePeerMessage(msg) => Message::ResponsePeerMessage(
            PeerMessage { id, ..msg },
        ),
        Message::RequestLastNBlocksMessage(msg) => Message::RequestLastNBlocksMessage(
            LastNBlocksMessage { id, ..msg },
        ),
        Message::RequestBlocksBeforeMessage(msg) => Message::RequestBlocksBeforeMessage(
            BlocksBeforeMessage { id, ..msg },
        ),
        Message::RequestMessageInfo(msg) => Message::RequestMessageInfo(MessageFirstInfo { id }),
    }
}

impl Message {
    pub fn get_id(&self) -> (r: u64)
        ensures
            r == msg_id(*self),
    {
        match self {
            Message::RawMessage(_) => 0,
            Message::ResponseBlockMessage(msg) => msg.get_id(),
            Message::ResponseTransactionMessage(msg) => msg.get_id(),
            Message::ResponseTextMessage(msg) => msg.get_id(),
            Message::ResponseMessageInfo(msg) => msg.get_id(),
            Message::ResponseChainMessage(msg) => msg.get_id(),
            Message::ResponsePeerMessage(msg) => msg.get_id(),
            Message::RequestLastNBlocksMessage(msg) => msg.get_id(),
            Message::RequestBlocksBeforeMessage(msg) => msg.get_id(),
            Message::RequestMessageInfo(msg) => msg.get_id(),
        }
    }

    pub fn set_id(&mut self, id: u64)
        ensures
            *final(self) == with_id(*old(self), id),
    {
        match self {
            Message::RawMessage(_) => (),
            Message::ResponseBlockMessage(msg) => msg.set_id(id),
            Message::ResponseTransactionMessage(msg) => msg.set_id(id),
            Message::ResponseTextMessage(msg) => msg.set_id(id),
            Message::ResponseMessageInfo(msg) => msg.set_id(id),
            Message::ResponseChainMessage(msg) => msg.set_id(id),
            Message::ResponsePeerMessage(msg) => msg.set_id(id),
            Message::RequestLastNBlocksMessage(msg) => msg.set_id(id),
            Message::RequestBlocksBeforeMessage(msg) => msg.set_id(id),
            Message::RequestMessageInfo(msg) => msg.set_id(id),
        }
    }

    pub fn get_type(&self) -> (r: MessageType)
        ensures
            r == msg_type(*self),
    {
        match self {
            Message::RawMessage(_) => MessageType::Raw,
            Message::ResponseBlockMessage(_) => MessageType::Block,
            Message::ResponseTransactionMessage(_) => MessageType::Transaction,
            Message::ResponseTextMessage(_) => MessageType::Text,
            Message::ResponseMessageInfo(_) => MessageType::MessageInfo,
            Message::ResponseChainMessage(_) => MessageType::Chain,
            Message::ResponsePeerMessage(_) => MessageType::Peer,
            Message::RequestLastNBlocksMessage(_) => MessageType::RequestLastNBlocks,
            Message::RequestBlocksBeforeMessage(_) => MessageType::RequestBlocksBefore,
            Message::RequestMessageInfo(_) => MessageType::RequestMessageInfo,
        }
    }
}

/// The kind of a message.
pub open spec fn msg_type(m: Message) -> MessageType {
    match m {
        Message::RawMessage(_) => MessageType::Raw,
        Message::ResponseBlockMessage(_) => MessageType::Block,
        Message::ResponseTransactionMessage(_) => MessageType::Transaction,
        Message::ResponseTextMessage(_) => MessageType::Text,
        Message::ResponseMessageInfo(_) => MessageType::MessageInfo,
        Message::ResponseChainMessage(_) => MessageType::Chain,
        Message::ResponsePeerMessage(_) => MessageType::Peer,
        Message::RequestLastNBlocksMessage(_) => MessageType::RequestLastNBlocks,
        Message::RequestBlocksBeforeMessage(_) => MessageType::RequestBlocksBefore,
        Message::RequestMessageInfo(_) => MessageType::RequestMessageInfo,
    }
}

/// Whether a message takes part in de-duplication: handshake and
/// info replies bypass it.
pub open spec fn deduped(m: Message) -> bool {
    !(m is RequestMessageInfo) && !(m is ResponseMessageInfo)
}

} // verus!
