//! The node's message router and its mining hand-off.
//!
//! A `Node` owns the chain, the mempool and the de-duplication
//! counter. `handle_message` is the whole inbound path of the wire
//! protocol: it drops stale envelopes, gossips fresh ones onward with
//! their id intact, and routes each payload to the chain or the
//! mempool. Outbound messages take a fresh id from the same counter,
//! so everything one node emits carries strictly increasing ids. The
//! surrounding process performs the returned actions: the router
//! itself never touches a socket.

use vstd::prelude::*;

use crate::block::{Block, BlockView};
use crate::chain::{
    Blockchain, add_result, can_append, chain_well_formed, replace_result,
};
use crate::mempool::{Mempool, kept};
use crate::messages::{
    ChainMessage, LastNBlocksMessage, Message, MessageAnswerFirstInfo, deduped, msg_id, with_id,
};
use crate::transaction::{SerializedTransaction, Transaction};

verus! {

/// What the surrounding process must do after a routing step.
pub enum Action {
    /// Send this message, id included, to every peer.
    Broadcast(Message),
    /// Show this text on the operator console.
    Show(String),
    /// Dial this address on the default port, unless connected.
    Dial(String),
}

/// Whether an action emits a message to the network.
pub open spec fn is_emit(a: Action) -> bool {
    a is Broadcast
}

/// The envelope id of an emitted message.
pub open spec fn emit_id(a: Action) -> u64 {
    msg_id(a->Broadcast_0)
}

/// Whether a wire transaction is acceptable for the mempool: its keys
/// parse, its transfer token is a plain decimal, and its signature
/// verifies under its sender key.
pub open spec fn tx_valid(st: SerializedTransaction) -> bool {
    match Transaction::deserialize_spec(st) {
        Ok(t) => t.sig_valid(),
        Err(_) => false,
    }
}

/// The last `n` blocks of `c`.
pub open spec fn last_n(c: Seq<BlockView>, n: int) -> Seq<BlockView> {
    c.skip(
        if c.len() <= n {
            0
        } else {
            c.len() - n
        },
    )
}

pub struct Node {
    pub last_message_id: u64,
    pub blockchain: Blockchain,
    pub mempool: Mempool,
}

impl Node {
    pub open spec fn wf(self) -> bool {
        self.mempool.wf()
    }

    pub fn new() -> (r: Node)
        ensures
            r.wf(),
            r.last_message_id == 0,
            r.blockchain.blocks() =~= Seq::<BlockView>::empty(),
            r.mempool.txs() =~= Seq::<SerializedTransaction>::empty(),
    {
        Node { last_message_id: 0, blockchain: Blockchain::new(), mempool: Mempool::new() }
    }

    /// Assigns the next fresh id to an outbound message and hands it
    /// back as a broadcast. This is the only way a message of this
    /// node's own making reaches the network, so emitted ids are
    /// strictly monotone.
    pub fn send_message(&mut self, msg: Message) -> (r: Action)
        requires
            old(self).last_message_id < u64::MAX,
        ensures
            final(self).last_message_id == old(self).last_message_id + 1,
            final(self).blockchain == old(self).blockchain,
            final(self).mempool == old(self).mempool,
            r == Action::Broadcast(with_id(msg, (old(self).last_message_id + 1) as u64)),
            is_emit(r) && emit_id(r) == final(self).last_message_id || msg is RawMessage,
    {
        self.last_message_id = self.last_message_id + 1;
        let mut out = msg;
        out.set_id(self.last_message_id);
        Action::Broadcast(out)
    }

    /// One routing step of the wire protocol, for a message already
    /// parsed off a frame.
    ///
    /// Envelopes whose id the node has seen are dropped without a
    /// trace; fresh ones raise the counter, travel onward unchanged,
    /// and act on the chain or the mempool. The info handshake
    /// bypasses the check and answers with the counter and the whole
    /// chain. A forced block from a bare wire message is ignored:
    /// force is the business of whole-chain transfer alone.
    #[verifier::rlimit(60)]
    pub fn handle_message(&mut self, msg: Message) -> (r: Vec<Action>)
        requires
            old(self).wf(),
            old(self).last_message_id + 2 < u64::MAX,
        ensures
            final(self).wf(),
            chain_well_formed(old(self).blockchain.blocks()) ==> chain_well_formed(
                final(self).blockchain.blocks(),
            ),
            final(self).last_message_id >= old(self).last_message_id,
            // de-duplication: a seen envelope does nothing at all
            deduped(msg) && msg_id(msg) <= old(self).last_message_id ==> *final(self) == *old(self)
                && r@ =~= Seq::<Action>::empty(),
            // every emitted id is fresh, and emissions rise strictly
            forall|i: int|
                0 <= i < r@.len() && is_emit(#[trigger] r@[i]) ==> old(self).last_message_id
                    < emit_id(r@[i]) <= final(self).last_message_id,
            forall|i: int, j: int|
                0 <= i < j < r@.len() && is_emit(#[trigger] r@[i]) && is_emit(#[trigger] r@[j])
                    ==> emit_id(r@[i]) < emit_id(r@[j]),
            // the info handshake: reply with the counter, then the chain
            msg is RequestMessageInfo ==> {
                &&& r@.len() == 2
                &&& (r@[0] matches Action::Broadcast(Message::ResponseMessageInfo(m)) && m.id
                    == old(self).last_message_id + 1)
                &&& (r@[1] matches Action::Broadcast(Message::ResponseChainMessage(c)) && c.id
                    == old(self).last_message_id + 2 && c.chain.deep_view() == old(
                    self,
                ).blockchain.blocks())
                &&& final(self).last_message_id == old(self).last_message_id + 2
                &&& final(self).blockchain == old(self).blockchain
                &&& final(self).mempool == old(self).mempool
            },
            // the info reply only raises the counter
            msg matches Message::ResponseMessageInfo(m) ==> (r@ =~= Seq::<Action>::empty()
                && final(self).last_message_id == (if m.id > old(self).last_message_id {
                m.id
            } else {
                old(self).last_message_id
            }) && final(self).blockchain == old(self).blockchain && final(self).mempool == old(
                self,
            ).mempool),
            // a fresh envelope is gossiped onward with its id intact
            (deduped(msg) && msg_id(msg) > old(self).last_message_id && msg_id(msg)
                < u64::MAX - 1) ==> (r@.len() >= 1 && r@[0] == Action::Broadcast(msg)
                && final(self).last_message_id >= msg_id(msg)),
            // an envelope too near the id ceiling is dropped
            deduped(msg) && msg_id(msg) >= u64::MAX - 1 ==> *final(self) == *old(self) && r@ =~=
                Seq::<Action>::empty(),
            // a fresh block: append when it fits, else ask for a resync
            msg matches Message::ResponseBlockMessage(bm) ==> (bm.id > old(
                self,
            ).last_message_id && bm.id < u64::MAX - 1 ==> {
                &&& !bm.force ==> final(self).blockchain.blocks() == add_result(
                    old(self).blockchain.blocks(),
                    bm.block@,
                )
                &&& !bm.force && can_append(old(self).blockchain.blocks(), bm.block@) ==> r@.len()
                    == 1 && final(self).mempool.txs() == kept(old(self).mempool.txs(), bm.block@.txs)
                    && final(self).last_message_id == bm.id
                &&& !bm.force && !can_append(old(self).blockchain.blocks(), bm.block@) ==> {
                    &&& r@.len() == 2
                    &&& (r@[1] matches Action::Broadcast(Message::RequestLastNBlocksMessage(q))
                        && q.n == 10 && q.id == bm.id + 1)
                    &&& final(self).mempool == old(self).mempool
                    &&& final(self).last_message_id == bm.id + 1
                }
                &&& bm.force ==> r@.len() == 1 && final(self).blockchain == old(self).blockchain
                    && final(self).mempool == old(self).mempool && final(self).last_message_id
                    == bm.id
            }),
            // a fresh transaction: verified, then queued
            msg matches Message::ResponseTransactionMessage(tm) ==> (tm.id > old(
                self,
            ).last_message_id && tm.id < u64::MAX - 1 ==> {
                &&& r@.len() == 1
                &&& final(self).blockchain == old(self).blockchain
                &&& final(self).last_message_id == tm.id
                &&& tx_valid(tm.transaction) ==> final(self).mempool.txs() == old(
                    self,
                ).mempool.txs().push(tm.transaction)
                &&& !tx_valid(tm.transaction) ==> final(self).mempool == old(self).mempool
            }),
            // a fresh chain offer: longest valid chain wins
            msg matches Message::ResponseChainMessage(cm) ==> (cm.id > old(
                self,
            ).last_message_id && cm.id < u64::MAX - 1 ==> {
                &&& r@.len() == 1
                &&& final(self).blockchain.blocks() == replace_result(
                    old(self).blockchain.blocks(),
                    cm.chain.deep_view(),
                )
                &&& final(self).mempool == old(self).mempool
                &&& final(self).last_message_id == cm.id
            }),
            // a fresh peer offer: dial it
            msg matches Message::ResponsePeerMessage(pm) ==> (pm.id > old(
                self,
            ).last_message_id && pm.id < u64::MAX - 1 ==> {
                &&& r@.len() == 2
                &&& r@[1] == Action::Dial(pm.peer_address)
                &&& final(self).blockchain == old(self).blockchain
                &&& final(self).mempool == old(self).mempool
                &&& final(self).last_message_id == pm.id
            }),
            // a fresh text: surface it
            msg matches Message::ResponseTextMessage(tm) ==> (tm.id > old(
                self,
            ).last_message_id && tm.id < u64::MAX - 1 ==> {
                &&& r@.len() == 2
                &&& r@[1] == Action::Show(tm.message)
                &&& final(self).blockchain == old(self).blockchain
                &&& final(self).mempool == old(self).mempool
                &&& final(self).last_message_id == tm.id
            }),
            // a fresh request for the last blocks: answer with them
            msg matches Message::RequestLastNBlocksMessage(q) ==> (q.id > old(
                self,
            ).last_message_id && q.id < u64::MAX - 1 ==> {
                &&& r@.len() == 2
                &&& (r@[1] matches Action::Broadcast(Message::ResponseChainMessage(c)) && c.id
                    == q.id + 1 && c.chain.deep_view() == last_n(
                    old(self).blockchain.blocks(),
                    q.n as int,
                ))
                &&& final(self).blockchain == old(self).blockchain
                &&& final(self).mempool == old(self).mempool
                &&& final(self).last_message_id == q.id + 1
            }),
            // a fresh request for the blocks before a time: answer
            msg matches Message::RequestBlocksBeforeMessage(q) ==> (q.id > old(
                self,
            ).last_message_id && q.id < u64::MAX - 1 ==> {
                &&& r@.len() == 2
                &&& (r@[1] matches Action::Broadcast(Message::ResponseChainMessage(c)) && c.id
                    == q.id + 1 && c.chain.deep_view() == crate::chain::blocks_before(
                    old(self).blockchain.blocks(),
                    q.time_stamp as int,
                ))
                &&& final(self).blockchain == old(self).blockchain
                &&& final(self).mempool == old(self).mempool
                &&& final(self).last_message_id == q.id + 1
            }),
    {
        match msg {
            Message::RequestMessageInfo(_) => {
                let mut info = MessageAnswerFirstInfo::new();
                info.set_id(self.last_message_id + 1);
                let chain_copy = self.blockchain.get_full_chain();
                let mut chain_msg = ChainMessage::new(chain_copy);
                chain_msg.set_id(self.last_message_id + 2);
                self.last_message_id = self.last_message_id + 2;
                let mut r: Vec<Action> = Vec::new();
                r.push(Action::Broadcast(Message::ResponseMessageInfo(info)));
                r.push(Action::Broadcast(Message::ResponseChainMessage(chain_msg)));
                r
            },
            Message::ResponseMessageInfo(m) => {
                if self.last_message_id < m.id {
                    self.last_message_id = m.id;
                }
                Vec::new()
            },
            msg => {
                let id = msg.get_id();
                if id <= self.last_message_id || id >= u64::MAX - 1 {
                    return Vec::new();
                }
                self.last_message_id = id;
                let mut r: Vec<Action> = Vec::new();
                match msg {
                    Message::ResponseBlockMessage(bm) => {
                        let force = bm.force;
                        let block_copy = bm.block.clone();
                        let txs = clone_txs(bm.block.get_transactions());
                        assert(txs@ =~= bm.block@.txs);
                        r.push(Action::Broadcast(Message::ResponseBlockMessage(bm)));
                        if !force {
                            match self.blockchain.add_block(block_copy) {
                                Ok(_) => {
                                    self.mempool.remove_matching(&txs);
                                },
                                Err(_) => {
                                    self.last_message_id = self.last_message_id + 1;
                                    let mut q = LastNBlocksMessage::new(10);
                                    q.set_id(self.last_message_id);
                                    r.push(
                                        Action::Broadcast(Message::RequestLastNBlocksMessage(q)),
                                    );
                                },
                            }
                        }
                        r
                    },
                    Message::ResponseTransactionMessage(tm) => {
                        let tx_copy = tm.transaction.clone();
                        let ghost tx_orig = tm.transaction;
                        r.push(Action::Broadcast(Message::ResponseTransactionMessage(tm)));
                        match Transaction::deserialize(tx_copy) {
                            Ok(t) => {
                                if t.verify() {
                                    let st = t.serialize();
                                    proof {
                                        assert(st =~= tx_orig);
                                    }
                                    self.mempool.push(st);
                                }
                            },
                            Err(_) => {},
                        }
                        r
                    },
                    Message::ResponseChainMessage(cm) => {
                        let chain_copy = crate::chain::clone_blocks(&cm.chain);
                        r.push(Action::Broadcast(Message::ResponseChainMessage(cm)));
                        self.blockchain.consider_replacement(chain_copy);
                        r
                    },
                    Message::ResponsePeerMessage(pm) => {
                        let addr = pm.peer_address.clone();
                        let ghost addr_orig = pm.peer_address;
                        r.push(Action::Broadcast(Message::ResponsePeerMessage(pm)));
                        r.push(Action::Dial(addr));
                        r
                    },
                    Message::ResponseTextMessage(tm) => {
                        let text = tm.message.clone();
                        r.push(Action::Broadcast(Message::ResponseTextMessage(tm)));
                        r.push(Action::Show(text));
                        r
                    },
                    Message::RequestLastNBlocksMessage(q) => {
                        let n = q.n;
                        r.push(Action::Broadcast(Message::RequestLastNBlocksMessage(q)));
                        let blocks = self.blockchain.get_last_n_blocks(n);
                        self.last_message_id = self.last_message_id + 1;
                        let mut c = ChainMessage::new(blocks);
                        c.set_id(self.last_message_id);
                        r.push(Action::Broadcast(Message::ResponseChainMessage(c)));
                        r
                    },
                    Message::RequestBlocksBeforeMessage(q) => {
                        let t = q.time_stamp;
                        r.push(Action::Broadcast(Message::RequestBlocksBeforeMessage(q)));
                        let blocks = self.blockchain.get_blocks_before(t);
                        self.last_message_id = self.last_message_id + 1;
                        let mut c = ChainMessage::new(blocks);
                        c.set_id(self.last_message_id);
                        r.push(Action::Broadcast(Message::ResponseChainMessage(c)));
                        r
                    },
                    _ => Vec::new(),
                }
            },
        }
    }
}

/// Whether a candidate with these fields meets the proof-of-work
/// target. The creation time is no part of the preimage, so it does
/// not appear here.
pub open spec fn work_ok(
    id: nat,
    ts: Seq<SerializedTransaction>,
    prev: Seq<char>,
    nonce: nat,
) -> bool {
    (BlockView { id, time: 0, txs: ts, prev, nonce }).pow_ok()
}

/// Tries `attempts` nonces from `start_nonce` up for a candidate
/// block on the given parent. `None` means none of them meets the
/// target; the caller re-checks the tip and carries on from where the
/// search stopped.
pub fn try_mine(
    id: usize,
    transactions: Vec<SerializedTransaction>,
    previous_hash: String,
    start_nonce: u64,
    attempts: u64,
) -> (r: Option<Block>)
    requires
        start_nonce + attempts <= u64::MAX,
    ensures
        (r matches Some(b) ==> {
            &&& b@.pow_ok()
            &&& b@.id == id
            &&& b@.txs == transactions@
            &&& b@.prev == previous_hash@
            &&& start_nonce <= b@.nonce < start_nonce + attempts
        }),
        r is None ==> forall|k: nat|
            start_nonce <= k < start_nonce + attempts ==> !work_ok(
                id as nat,
                transactions@,
                previous_hash@,
                k,
            ),
{
    let ghost ts = transactions@;
    let ghost prev = previous_hash@;
    let mut block = Block::new(id, transactions, previous_hash, start_nonce);
    let mut tried: u64 = 0;
    while tried < attempts
        invariant
            tried <= attempts,
            block@.id == id,
            block@.txs == ts,
            block@.prev == prev,
            block@.nonce == start_nonce + tried,
            forall|k: nat| start_nonce <= k < start_nonce + tried ==> !work_ok(id as nat, ts, prev, k),
        decreases attempts - tried,
    {
        if block.has_valid_pow() {
            return Some(block);
        }
        proof {
            let v = BlockView {
                id: id as nat,
                time: 0,
                txs: ts,
                prev,
                nonce: block@.nonce,
            };
            assert(v.preimage() == block@.preimage());
            assert(!work_ok(id as nat, ts, prev, block@.nonce));
        }
        tried = tried + 1;
        block.nonce = start_nonce + tried;
    }
    None
}

impl Node {
    /// Commits a block the miner found: appends it when it still fits
    /// the tip, drops its transactions from the mempool, and hands
    /// back the announcement to broadcast. `None` means the tip moved
    /// and the block was discarded.
    pub fn submit_mined_block(&mut self, block: Block) -> (r: Option<Action>)
        requires
            old(self).wf(),
            old(self).last_message_id < u64::MAX,
        ensures
            final(self).wf(),
            chain_well_formed(old(self).blockchain.blocks()) ==> chain_well_formed(
                final(self).blockchain.blocks(),
            ),
            can_append(old(self).blockchain.blocks(), block@) ==> {
                &&& final(self).blockchain.blocks() == old(self).blockchain.blocks().push(block@)
                &&& final(self).mempool.txs() == kept(old(self).mempool.txs(), block@.txs)
                &&& final(self).last_message_id == old(self).last_message_id + 1
                &&& (r matches Some(
                    Action::Broadcast(Message::ResponseBlockMessage(bm)),
                ) && bm.id == old(self).last_message_id + 1 && bm.block@ == block@ && !bm.force)
            },
            !can_append(old(self).blockchain.blocks(), block@) ==> ((r is None)
                && final(self).blockchain.blocks() == old(self).blockchain.blocks()
                && final(self).mempool == old(self).mempool
                && final(self).last_message_id == old(self).last_message_id),
    {
        let txs = clone_txs(block.get_transactions());
        proof {
            assert(txs@ =~= block@.txs);
        }
        match self.blockchain.add_block(block) {
            Ok(accepted) => {
                self.mempool.remove_matching(&txs);
                self.last_message_id = self.last_message_id + 1;
                let mut bm = crate::messages::BlockMessage::new(accepted, false);
                bm.set_id(self.last_message_id);
                Some(Action::Broadcast(Message::ResponseBlockMessage(bm)))
            },
            Err(_) => None,
        }
    }

    /// Puts an abandoned mining batch back into the mempool, in
    /// order.
    pub fn return_batch(&mut self, txs: Vec<SerializedTransaction>)
        requires
            old(self).wf(),
            forall|i: int| 0 <= i < txs@.len() ==> crate::amount::amount_wf((#[trigger] txs@[i]).transfer@),
        ensures
            final(self).wf(),
            final(self).mempool.txs() == old(self).mempool.txs() + txs@,
            final(self).blockchain == old(self).blockchain,
            final(self).last_message_id == old(self).last_message_id,
    {
        let n = txs.len();
        let mut i: usize = 0;
        proof {
            assert(self.mempool.txs() =~= old(self).mempool.txs() + txs@.subrange(0, 0));
        }
        while i < n
            invariant
                i <= n,
                n == txs@.len(),
                self.wf(),
                self.mempool.txs() == old(self).mempool.txs() + txs@.subrange(0, i as int),
                self.blockchain == old(self).blockchain,
                self.last_message_id == old(self).last_message_id,
                forall|j: int| 0 <= j < txs@.len() ==> crate::amount::amount_wf(
                    (#[trigger] txs@[j]).transfer@,
                ),
            decreases n - i,
        {
            self.mempool.push(txs[i].clone());
            proof {
                assert(self.mempool.txs() =~= old(self).mempool.txs() + txs@.subrange(0, i + 1));
            }
            i = i + 1;
        }
        proof {
            assert(old(self).mempool.txs() + txs@.subrange(0, n as int) =~= old(
                self,
            ).mempool.txs() + txs@);
        }
    }
}

/// Messages emitted by one node carry strictly rising ids: when one
/// routing step emits ids above `lo` up to `mid` and the next step
/// emits ids above `mid`, everything emitted across both steps is
/// strictly ordered.
pub proof fn lemma_emissions_monotone(r1: Seq<Action>, r2: Seq<Action>, lo: u64, mid: u64)
    requires
        forall|i: int|
            0 <= i < r1.len() && is_emit(#[trigger] r1[i]) ==> lo < emit_id(r1[i]) <= mid,
        forall|i: int, j: int|
            0 <= i < j < r1.len() && is_emit(#[trigger] r1[i]) && is_emit(#[trigger] r1[j])
                ==> emit_id(r1[i]) < emit_id(r1[j]),
        forall|i: int| 0 <= i < r2.len() && is_emit(#[trigger] r2[i]) ==> mid < emit_id(r2[i]),
        forall|i: int, j: int|
            0 <= i < j < r2.len() && is_emit(#[trigger] r2[i]) && is_emit(#[trigger] r2[j])
                ==> emit_id(r2[i]) < emit_id(r2[j]),
    ensures
        forall|i: int, j: int|
            0 <= i < j < (r1 + r2).len() && is_emit(#[trigger] (r1 + r2)[i]) && is_emit(
                #[trigger] (r1 + r2)[j],
            ) ==> emit_id((r1 + r2)[i]) < emit_id((r1 + r2)[j]),
{
    assert forall|i: int, j: int|
        0 <= i < j < (r1 + r2).len() && is_emit(#[trigger] (r1 + r2)[i]) && is_emit(
            #[trigger] (r1 + r2)[j],
        ) implies emit_id((r1 + r2)[i]) < emit_id((r1 + r2)[j]) by {
        if j < r1.len() {
            assert((r1 + r2)[i] == r1[i]);
            assert((r1 + r2)[j] == r1[j]);
        } else if i < r1.len() {
            assert((r1 + r2)[i] == r1[i]);
            assert((r1 + r2)[j] == r2[j - r1.len()]);
        } else {
            assert((r1 + r2)[i] == r2[i - r1.len()]);
            assert((r1 + r2)[j] == r2[j - r1.len()]);
        }
    }
}

/// A copy of a transaction vector, element by element.
pub fn clone_txs(txs: &Vec<SerializedTransaction>) -> (r: Vec<SerializedTransaction>)
    ensures
        r@ == txs@,
{
    let n = txs.len();
    let mut out: Vec<SerializedTransaction> = Vec::new();
    let mut i: usize = 0;
    while i < n
        invariant
            i <= n,
            n == txs@.len(),
            out@ =~= txs@.subrange(0, i as int),
        decreases n - i,
    {
        out.push(txs[i].clone());
        proof {
            assert(out@ =~= txs@.subrange(0, i + 1));
        }
        i = i + 1;
    }
    proof {
        assert(txs@.subrange(0, n as int) =~= txs@);
    }
    out
}

} // verus!
