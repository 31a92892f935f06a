//! Blocks and their proof-of-work hash.
//!
//! A block's hash is the SHA-512 of a canonical rendering of its id,
//! transactions, previous hash and nonce — the creation time is not
//! part of it. A block meets the proof-of-work target when its hash
//! starts with three `'0'` characters (12 leading zero bits).

use vstd::prelude::*;

use crate::crypto::{now_timestamp, sha512_hex, sha512_hex_of};
use crate::digits::dec_of;
use crate::strutil::push_char;
use crate::transaction::SerializedTransaction;

verus! {

/// The mathematical content of a block: what its hash and the chain
/// rules depend on.
#[verifier::ext_equal]
pub ghost struct BlockView {
    pub id: nat,
    pub time: int,
    pub txs: Seq<SerializedTransaction>,
    pub prev: Seq<char>,
    pub nonce: nat,
}

/// The canonical rendering of one transaction inside a block
/// preimage: its fields joined by `'|'`.
pub open spec fn tx_render(t: SerializedTransaction) -> Seq<char> {
    t.sender@ + seq!['|'] + t.buyer@ + seq!['|'] + t.seller@ + seq!['|'] + t.message@ + seq!['|']
        + t.transfer@ + seq!['|'] + t.signature@
}

/// The canonical rendering of a transaction list: each one ended by
/// `';'`.
pub open spec fn txs_render(ts: Seq<SerializedTransaction>) -> Seq<char>
    decreases ts.len(),
{
    if ts.len() == 0 {
        Seq::empty()
    } else {
        txs_render(ts.drop_last()) + tx_render(ts.last()) + seq![';']
    }
}

impl BlockView {
    /// What a block hashes: `id_[transactions]_previous_hash/nonce`.
    pub open spec fn preimage(self) -> Seq<char> {
        dec_of(self.id) + seq!['_', '['] + txs_render(self.txs) + seq![']', '_'] + self.prev + seq![
            '/',
        ] + dec_of(self.nonce)
    }

    /// The block's hash, as the trusted digest name.
    pub open spec fn hash(self) -> Seq<char> {
        sha512_hex_of(self.preimage())
    }

    /// Whether the block meets the proof-of-work target.
    pub open spec fn pow_ok(self) -> bool {
        pow_prefix_ok(self.hash())
    }
}

/// The proof-of-work target: three leading hex zeros.
pub open spec fn pow_prefix_ok(h: Seq<char>) -> bool {
    h.len() >= 3 && h[0] == '0' && h[1] == '0' && h[2] == '0'
}

/// The fixed text whose SHA-512 seeds the genesis block.
pub open spec fn genesis_seed() -> Seq<char> {
    "First block"@
}

#[derive(Debug)]
pub struct Block {
    pub id: usize,
    pub time_create: i64,
    pub transactions: Vec<SerializedTransaction>,
    pub previous_hash: String,
    pub nonce: u64,
}

impl View for Block {
    type V = BlockView;

    open spec fn view(&self) -> BlockView {
        BlockView {
            id: self.id as nat,
            time: self.time_create as int,
            txs: self.transactions@,
            prev: self.previous_hash@,
            nonce: self.nonce as nat,
        }
    }
}

impl DeepView for Block {
    type V = BlockView;

    open spec fn deep_view(&self) -> BlockView {
        self@
    }
}

impl Block {
    /// A block built now: the creation time is read from the clock
    /// and nothing is stated of it.
    pub fn new(
        id: usize,
        transactions: Vec<SerializedTransaction>,
        previous_hash: String,
        nonce: u64,
    ) -> (r: Block)
        ensures
            r@.id == id,
            r@.txs == transactions@,
            r@.prev == previous_hash@,
            r@.nonce == nonce,
    {
        Block { id, time_create: now_timestamp(), transactions, previous_hash, nonce }
    }

    /// A block with every field given, the creation time included.
    pub fn force_new(
        id: usize,
        time_create: i64,
        transactions: Vec<SerializedTransaction>,
        previous_hash: String,
        nonce: u64,
    ) -> (r: Block)
        ensures
            r@ == (BlockView {
                id: id as nat,
                time: time_create as int,
                txs: transactions@,
                prev: previous_hash@,
                nonce: nonce as nat,
            }),
    {
        Block { id, time_create, transactions, previous_hash, nonce }
    }

    /// Renders the canonical preimage of this block.
    pub fn render_preimage(&self) -> (r: String)
        ensures
            r@ == self@.preimage(),
    {
        let mut out = String::new();
        crate::digits::push_u64_dec(&mut out, self.id as u64);
        push_char(&mut out, '_');
        push_char(&mut out, '[');
        let n = self.transactions.len();
        let mut i: usize = 0;
        while i < n
            invariant
                i <= n,
                n == self.transactions@.len(),
                out@ == dec_of(self.id as nat) + seq!['_', '['] + txs_render(
                    self.transactions@.subrange(0, i as int),
                ),
            decreases n - i,
        {
            let t = &self.transactions[i];
            out.append(t.sender.as_str());
            push_char(&mut out, '|');
            out.append(t.buyer.as_str());
            push_char(&mut out, '|');
            out.append(t.seller.as_str());
            push_char(&mut out, '|');
            out.append(t.message.as_str());
            push_char(&mut out, '|');
            out.append(t.transfer.as_str());
            push_char(&mut out, '|');
            out.append(t.signature.as_str());
            push_char(&mut out, ';');
            proof {
                let pre = self.transactions@.subrange(0, i + 1);
                assert(pre.drop_last() =~= self.transactions@.subrange(0, i as int));
                assert(pre.last() == self.transactions@[i as int]);
                assert(out@ =~= dec_of(self.id as nat) + seq!['_', '['] + txs_render(pre));
            }
            i = i + 1;
        }
        proof {
            assert(self.transactions@.subrange(0, n as int) =~= self.transactions@);
        }
        push_char(&mut out, ']');
        push_char(&mut out, '_');
        out.append(self.previous_hash.as_str());
        push_char(&mut out, '/');
        crate::digits::push_u64_dec(&mut out, self.nonce);
        proof {
            assert(out@ =~= self@.preimage());
        }
        out
    }

    /// The block's SHA-512 hash over its canonical preimage, in
    /// lowercase hex.
    pub fn get_hash(&self) -> (r: String)
        ensures
            r@ == self@.hash(),
            r@.len() == 128,
    {
        let preimage = self.render_preimage();
        sha512_hex(preimage.as_str())
    }

    /// Whether this block meets the proof-of-work target.
    pub fn has_valid_pow(&self) -> (r: bool)
        ensures
            r == self@.pow_ok(),
    {
        let h = self.get_hash();
        let hs = h.as_str();
        let c0 = hs.get_char(0);
        let c1 = hs.get_char(1);
        let c2 = hs.get_char(2);
        c0 == '0' && c1 == '0' && c2 == '0'
    }

    pub fn get_nonce(&self) -> (r: u64)
        ensures
            r == self@.nonce,
    {
        self.nonce
    }

    pub fn get_previous_hash(&self) -> (r: String)
        ensures
            r@ == self@.prev,
    {
        self.previous_hash.clone()
    }

    pub fn get_id(&self) -> (r: usize)
        ensures
            r == self@.id,
    {
        self.id
    }

    pub fn get_datetime(&self) -> (r: i64)
        ensures
            r == self@.time,
    {
        self.time_create
    }

    pub fn set_previous_hash(&mut self, last_hash: String)
        ensures
            final(self)@ == (BlockView { prev: last_hash@, ..old(self)@ }),
    {
        self.previous_hash = last_hash;
    }

    pub fn get_transactions(&self) -> (r: &Vec<SerializedTransaction>)
        ensures
            r@ == self@.txs,
    {
        &self.transactions
    }
}

impl Clone for Block {
    fn clone(&self) -> (r: Self)
        ensures
            r@ == self@,
    {
        let mut txs: Vec<SerializedTransaction> = Vec::new();
        let n = self.transactions.len();
        let mut i: usize = 0;
        while i < n
            invariant
                i <= n,
                n == self.transactions@.len(),
                txs@ == self.transactions@.subrange(0, i as int),
            decreases n - i,
        {
            txs.push(self.transactions[i].clone());
            assert(txs@ =~= self.transactions@.subrange(0, i + 1));
            i = i + 1;
        }
        assert(txs@ =~= self.transactions@);
        let r = Block {
            id: self.id,
            time_create: self.time_create,
            transactions: txs,
            previous_hash: self.previous_hash.clone(),
            nonce: self.nonce,
        };
        assert(r@ =~= self@);
        r
    }
}

} // verus!
