//! The block chain: appending, validation, projections and fork
//! choice.
//!
//! A chain is well formed when it starts at the fixed genesis block
//! and every later block links to its predecessor's hash and meets
//! the proof-of-work target. A replacement chain is adopted only when
//! it is well formed and strictly higher than the local tip.

use vstd::prelude::*;

use crate::block::{Block, BlockView, genesis_seed};
use crate::crypto::{sha512_hex, sha512_hex_of};
use crate::errors::ChainError;

verus! {

/// Every block after the first links to its predecessor's hash and
/// meets the proof-of-work target.
pub open spec fn chain_valid(c: Seq<BlockView>) -> bool {
    forall|i: int|
        1 <= i < c.len() ==> (#[trigger] c[i]).prev == c[i - 1].hash() && c[i].pow_ok()
}

/// The fixed genesis block: height 1, no transactions, the SHA-512 of
/// the genesis seed as previous hash, nonce 0. Its creation time is
/// free.
pub open spec fn is_genesis(b: BlockView) -> bool {
    b.id == 1 && b.txs.len() == 0 && b.prev == sha512_hex_of(genesis_seed()) && b.nonce == 0
}

/// A well-formed chain: genesis first, then valid linkage throughout.
pub open spec fn chain_well_formed(c: Seq<BlockView>) -> bool {
    c.len() > 0 ==> (is_genesis(c[0]) && chain_valid(c))
}

/// The height of a chain's tip; zero for an empty chain.
pub open spec fn tip_height(c: Seq<BlockView>) -> nat {
    if c.len() == 0 {
        0
    } else {
        c.last().id
    }
}

/// Whether a candidate chain may replace the local one: it must be
/// nonempty, start at genesis, be valid throughout, and carry a
/// strictly higher tip.
pub open spec fn replacement_ok(local: Seq<BlockView>, cand: Seq<BlockView>) -> bool {
    &&& cand.len() > 0
    &&& is_genesis(cand[0])
    &&& chain_valid(cand)
    &&& cand.last().id > tip_height(local)
}

/// Whether `b` may be appended: the chain has a tip, `b` meets the
/// proof-of-work target, links onto the tip's hash and is its direct
/// successor in height.
pub open spec fn can_append(c: Seq<BlockView>, b: BlockView) -> bool {
    &&& c.len() > 0
    &&& b.pow_ok()
    &&& b.prev == c.last().hash()
    &&& b.id == c.last().id + 1
}

/// What the chain holds after a block is offered without force.
pub open spec fn add_result(c: Seq<BlockView>, b: BlockView) -> Seq<BlockView> {
    if can_append(c, b) {
        c.push(b)
    } else {
        c
    }
}

/// What the chain holds after a replacement offer.
pub open spec fn replace_result(local: Seq<BlockView>, cand: Seq<BlockView>) -> Seq<BlockView> {
    if replacement_ok(local, cand) {
        cand
    } else {
        local
    }
}

/// Fork choice never lowers the local tip, and reaches the candidate
/// tip whenever the candidate is adopted.
pub proof fn lemma_replacement_height(local: Seq<BlockView>, cand: Seq<BlockView>)
    ensures
        tip_height(replace_result(local, cand)) >= tip_height(local),
        replacement_ok(local, cand) ==> tip_height(replace_result(local, cand))
            == cand.last().id,
{
}

/// Every block of a well-formed chain above genesis carries its
/// predecessor's hash and meets the proof-of-work target.
pub proof fn lemma_chain_linkage(c: Seq<BlockView>, h: int)
    requires
        chain_well_formed(c),
        1 <= h < c.len(),
    ensures
        c[h].prev == c[h - 1].hash(),
        c[h].pow_ok(),
{
}

/// A valid extension keeps a chain well formed.
pub proof fn lemma_extend_well_formed(c: Seq<BlockView>, b: BlockView)
    requires
        chain_well_formed(c),
        c.len() > 0,
        b.prev == c.last().hash(),
        b.pow_ok(),
    ensures
        chain_well_formed(c.push(b)),
{
    let d = c.push(b);
    assert forall|i: int| 1 <= i < d.len() implies (#[trigger] d[i]).prev == d[i - 1].hash()
        && d[i].pow_ok() by {
        if i < c.len() {
            assert(d[i] == c[i]);
            assert(d[i - 1] == c[i - 1]);
        } else {
            assert(d[i] == b);
            assert(d[i - 1] == c.last());
        }
    }
}

pub struct Blockchain {
    pub chain: Vec<Block>,
    pub nonce_iteration: u64,
}

impl Blockchain {
    /// The chain as a sequence of block views.
    pub open spec fn blocks(self) -> Seq<BlockView> {
        self.chain.deep_view()
    }

    pub fn new() -> (r: Blockchain)
        ensures
            r.blocks() =~= Seq::<BlockView>::empty(),
    {
        Blockchain { chain: Vec::new(), nonce_iteration: 0 }
    }

    pub fn len(&self) -> (r: usize)
        ensures
            r == self.blocks().len(),
    {
        self.chain.len()
    }

    /// The tip, when there is one.
    pub fn get_last_block(&self) -> (r: Result<Block, ChainError>)
        ensures
            self.blocks().len() == 0 <==> r == Err::<Block, ChainError>(ChainError::EmptyChain),
            self.blocks().len() > 0 ==> r is Ok,
            (r matches Ok(b) ==> b@ == self.blocks().last()),
    {
        if self.chain.len() == 0 {
            Err(ChainError::EmptyChain)
        } else {
            Ok(self.chain[self.chain.len() - 1].clone())
        }
    }

    /// Appends `block` when it meets the proof-of-work target and
    /// links onto the tip as its direct successor; gives the reason
    /// back otherwise.
    pub fn add_block(&mut self, block: Block) -> (r: Result<Block, ChainError>)
        ensures
            old(self).blocks().len() == 0 ==> r == Err::<Block, ChainError>(ChainError::EmptyChain)
                && final(self).blocks() == old(self).blocks(),
            old(self).blocks().len() > 0 && !block@.pow_ok() ==> r == Err::<Block, ChainError>(
                ChainError::InvalidPow,
            ) && final(self).blocks() == old(self).blocks(),
            old(self).blocks().len() > 0 && block@.pow_ok() && !(block@.prev == old(
                self,
            ).blocks().last().hash() && block@.id == old(self).blocks().last().id + 1) ==> r
                == Err::<Block, ChainError>(ChainError::StaleOrForked) && final(self).blocks()
                == old(self).blocks(),
            old(self).blocks().len() > 0 && block@.pow_ok() && block@.prev == old(
                self,
            ).blocks().last().hash() && block@.id == old(self).blocks().last().id + 1 ==> (r
                matches Ok(b) && b@ == block@) && final(self).blocks() == old(self).blocks().push(
                block@,
            ),
            chain_well_formed(old(self).blocks()) ==> chain_well_formed(final(self).blocks()),
            final(self).blocks() == add_result(old(self).blocks(), block@),
            r is Ok <==> can_append(old(self).blocks(), block@),
    {
        if self.chain.len() == 0 {
            return Err(ChainError::EmptyChain);
        }
        if !block.has_valid_pow() {
            return Err(ChainError::InvalidPow);
        }
        let last = &self.chain[self.chain.len() - 1];
        let last_hash = last.get_hash();
        let last_id = last.get_id();
        let block_prev = block.get_previous_hash();
        let block_id = block.get_id();
        if !(block_prev == last_hash && block_id >= 1 && block_id - 1 == last_id) {
            return Err(ChainError::StaleOrForked);
        }
        let copy = block.clone();
        proof {
            if chain_well_formed(old(self).blocks()) {
                lemma_extend_well_formed(old(self).blocks(), block@);
            }
        }
        self.chain.push(block);
        proof {
            assert(self.blocks() =~= old(self).blocks().push(copy@));
        }
        Ok(copy)
    }

    /// Appends `block` with no checks at all. Nothing is promised of
    /// the chain's shape afterwards.
    pub fn add_force_block(&mut self, block: Block)
        ensures
            final(self).blocks() == old(self).blocks().push(block@),
    {
        let ghost b = block@;
        self.chain.push(block);
        proof {
            assert(self.blocks() =~= old(self).blocks().push(b));
        }
    }

    /// Appends the genesis block: height 1, no transactions, the
    /// SHA-512 of the genesis seed as previous hash, nonce 0.
    pub fn create_first_block(&mut self)
        ensures
            final(self).blocks().len() == old(self).blocks().len() + 1,
            final(self).blocks().drop_last() == old(self).blocks(),
            is_genesis(final(self).blocks().last()),
            old(self).blocks().len() == 0 ==> chain_well_formed(final(self).blocks()),
    {
        let hex_string = sha512_hex("First block");
        let block = Block::new(1, Vec::new(), hex_string, 0);
        self.add_force_block(block);
        proof {
            assert(final(self).blocks().drop_last() =~= old(self).blocks());
            if old(self).blocks().len() == 0 {
                assert(final(self).blocks().len() == 1);
            }
        }
    }

    /// Whether `block` meets the proof-of-work target.
    pub fn is_valid_block(block: &Block) -> (r: bool)
        ensures
            r == block@.pow_ok(),
    {
        block.has_valid_pow()
    }

    /// The blocks created strictly after `datetime`, in chain order.
    pub fn get_blocks_after(&self, datetime: i64) -> (r: Vec<Block>)
        ensures
            r.deep_view() == blocks_after(self.blocks(), datetime as int),
    {
        let n = self.chain.len();
        let mut out: Vec<Block> = Vec::new();
        let mut i: usize = 0;
        while i < n
            invariant
                i <= n,
                n == self.chain@.len(),
                out.deep_view() == blocks_after(self.blocks().subrange(0, i as int), datetime as int),
            decreases n - i,
        {
            proof {
                let pre = self.blocks().subrange(0, i + 1);
                assert(pre.drop_last() =~= self.blocks().subrange(0, i as int));
                assert(pre.last() == self.blocks()[i as int]);
            }
            if datetime < self.chain[i].get_datetime() {
                out.push(self.chain[i].clone());
            }
            proof {
                assert(out.deep_view() =~= blocks_after(
                    self.blocks().subrange(0, i + 1),
                    datetime as int,
                ));
            }
            i = i + 1;
        }
        proof {
            assert(self.blocks().subrange(0, n as int) =~= self.blocks());
        }
        out
    }

    /// The blocks created strictly before `datetime`, in chain order.
    pub fn get_blocks_before(&self, datetime: i64) -> (r: Vec<Block>)
        ensures
            r.deep_view() == blocks_before(self.blocks(), datetime as int),
    {
        let n = self.chain.len();
        let mut out: Vec<Block> = Vec::new();
        let mut i: usize = 0;
        while i < n
            invariant
                i <= n,
                n == self.chain@.len(),
                out.deep_view() == blocks_before(
                    self.blocks().subrange(0, i as int),
                    datetime as int,
                ),
            decreases n - i,
        {
            proof {
                let pre = self.blocks().subrange(0, i + 1);
                assert(pre.drop_last() =~= self.blocks().subrange(0, i as int));
                assert(pre.last() == self.blocks()[i as int]);
            }
            if datetime > self.chain[i].get_datetime() {
                out.push(self.chain[i].clone());
            }
            proof {
                assert(out.deep_view() =~= blocks_before(
                    self.blocks().subrange(0, i + 1),
                    datetime as int,
                ));
            }
            i = i + 1;
        }
        proof {
            assert(self.blocks().subrange(0, n as int) =~= self.blocks());
        }
        out
    }

    /// The whole chain, in order.
    pub fn get_full_chain(&self) -> (r: Vec<Block>)
        ensures
            r.deep_view() == self.blocks(),
    {
        clone_blocks(&self.chain)
    }

    /// The last `n` blocks — the whole chain when it is shorter.
    pub fn get_last_n_blocks(&self, n: usize) -> (r: Vec<Block>)
        ensures
            r.deep_view() == self.blocks().skip(
                if self.blocks().len() <= n {
                    0
                } else {
                    self.blocks().len() - n
                },
            ),
    {
        let len = self.chain.len();
        let start = if len <= n {
            0
        } else {
            len - n
        };
        let mut out: Vec<Block> = Vec::new();
        let mut i = start;
        while i < len
            invariant
                start <= i <= len,
                len == self.chain@.len(),
                out.deep_view() =~= self.blocks().subrange(start as int, i as int),
            decreases len - i,
        {
            out.push(self.chain[i].clone());
            proof {
                assert(out.deep_view() =~= self.blocks().subrange(start as int, i + 1));
            }
            i = i + 1;
        }
        proof {
            assert(self.blocks().subrange(start as int, len as int) =~= self.blocks().skip(
                start as int,
            ));
        }
        out
    }

    pub fn clear_nonce(&mut self)
        ensures
            final(self).blocks() == old(self).blocks(),
            final(self).nonce_iteration == 0,
    {
        self.nonce_iteration = 0;
    }

    /// Adopts `new_chain` when it starts at genesis, is valid
    /// throughout and carries a strictly higher tip; keeps the local
    /// chain otherwise. Returns whether the candidate was adopted.
    pub fn consider_replacement(&mut self, new_chain: Vec<Block>) -> (r: bool)
        ensures
            r == replacement_ok(old(self).blocks(), new_chain.deep_view()),
            final(self).blocks() == replace_result(old(self).blocks(), new_chain.deep_view()),
            r ==> chain_well_formed(final(self).blocks()),
    {
        let ghost cand = new_chain.deep_view();
        if new_chain.len() == 0 {
            return false;
        }
        let cand_tip_id = new_chain[new_chain.len() - 1].get_id();
        let local_height: usize = if self.chain.len() == 0 {
            0
        } else {
            self.chain[self.chain.len() - 1].get_id()
        };
        if cand_tip_id <= local_height {
            return false;
        }
        if !is_genesis_block(&new_chain[0]) {
            return false;
        }
        if !validate_chain(&new_chain) {
            return false;
        }
        self.chain = new_chain;
        proof {
            assert(replacement_ok(old(self).blocks(), cand));
            assert(self.blocks() == cand);
        }
        true
    }
}

/// The blocks of `c` created strictly after `t`, in order.
pub open spec fn blocks_after(c: Seq<BlockView>, t: int) -> Seq<BlockView>
    decreases c.len(),
{
    if c.len() == 0 {
        Seq::empty()
    } else if c.last().time > t {
        blocks_after(c.drop_last(), t).push(c.last())
    } else {
        blocks_after(c.drop_last(), t)
    }
}

/// The blocks of `c` created strictly before `t`, in order.
pub open spec fn blocks_before(c: Seq<BlockView>, t: int) -> Seq<BlockView>
    decreases c.len(),
{
    if c.len() == 0 {
        Seq::empty()
    } else if c.last().time < t {
        blocks_before(c.drop_last(), t).push(c.last())
    } else {
        blocks_before(c.drop_last(), t)
    }
}

/// A copy of a block vector, element by element.
pub fn clone_blocks(blocks: &Vec<Block>) -> (r: Vec<Block>)
    ensures
        r.deep_view() == blocks.deep_view(),
{
    let n = blocks.len();
    let mut out: Vec<Block> = Vec::new();
    let mut i: usize = 0;
    while i < n
        invariant
            i <= n,
            n == blocks@.len(),
            out.deep_view() =~= blocks.deep_view().subrange(0, i as int),
        decreases n - i,
    {
        out.push(blocks[i].clone());
        proof {
            assert(out.deep_view() =~= blocks.deep_view().subrange(0, i + 1));
        }
        i = i + 1;
    }
    proof {
        assert(blocks.deep_view().subrange(0, n as int) =~= blocks.deep_view());
    }
    out
}

/// Whether `b` is the fixed genesis block, its creation time aside.
pub fn is_genesis_block(b: &Block) -> (r: bool)
    ensures
        r == is_genesis(b@),
{
    let prev = b.get_previous_hash();
    let expected = sha512_hex("First block");
    b.get_id() == 1 && b.get_transactions().len() == 0 && b.get_nonce() == 0 && prev == expected
}

/// Whether every adjacent pair of `new_chain` links correctly and
/// every block after the first meets the proof-of-work target.
pub fn validate_chain(new_chain: &Vec<Block>) -> (r: bool)
    ensures
        r == chain_valid(new_chain.deep_view()),
{
    let n = new_chain.len();
    let ghost c = new_chain.deep_view();
    let mut i: usize = 1;
    while i < n
        invariant
            1 <= i <= n || (n == 0 && i == 1),
            n == new_chain@.len(),
            c == new_chain.deep_view(),
            forall|j: int| 1 <= j < i ==> (#[trigger] c[j]).prev == c[j - 1].hash() && c[j].pow_ok(),
        decreases n - i,
    {
        proof {
            assert(c[i as int] == new_chain@[i as int].deep_view());
            assert(c[i - 1] == new_chain@[i - 1].deep_view());
        }
        let current = &new_chain[i];
        let previous = &new_chain[i - 1];
        let prev_hash = previous.get_hash();
        let cur_prev = current.get_previous_hash();
        if cur_prev != prev_hash {
            assert(!chain_valid(c)) by {
                assert(c[i as int].prev != c[i - 1].hash());
            }
            return false;
        }
        if !current.has_valid_pow() {
            assert(!chain_valid(c)) by {
                assert(!c[i as int].pow_ok());
            }
            return false;
        }
        i = i + 1;
    }
    true
}

} // verus!
