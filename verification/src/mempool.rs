//! The mempool: pending transactions, highest transfer first.
//!
//! The pool hands the miner batches of its highest-priority entries
//! and drops every entry that appears in an accepted block. Priority
//! is the numeric order of the transfer tokens; entries are only
//! admitted with a well-formed token, so the order is total on the
//! pool.

use vstd::prelude::*;

use vstd::seq_lib::group_to_multiset_ensures;

use crate::amount::{
    amount_cmp, amount_cmp_spec, amount_eq, amount_le, amount_wf, lemma_amount_le_total,
    lemma_amount_le_trans,
};
use crate::transaction::SerializedTransaction;

verus! {

broadcast use group_to_multiset_ensures;

/// The de-duplication view of a transaction: `buyer` and `seller` do
/// not take part, as in the wire protocol.
pub open spec fn tx_like(a: SerializedTransaction, b: SerializedTransaction) -> bool {
    a.sender@ == b.sender@ && a.message@ == b.message@ && a.transfer@ == b.transfer@
        && a.signature@ == b.signature@
}

/// Whether `t` matches some element of `ts`.
pub open spec fn tx_in(t: SerializedTransaction, ts: Seq<SerializedTransaction>) -> bool {
    exists|j: int| 0 <= j < ts.len() && tx_like(t, ts[j])
}

/// What remains of `q` after dropping every entry that matches one of
/// `ts`.
pub open spec fn kept(q: Seq<SerializedTransaction>, ts: Seq<SerializedTransaction>) -> Seq<
    SerializedTransaction,
>
    decreases q.len(),
{
    if q.len() == 0 {
        Seq::empty()
    } else if tx_in(q.last(), ts) {
        kept(q.drop_last(), ts)
    } else {
        kept(q.drop_last(), ts).push(q.last())
    }
}

/// Nothing that matches a block transaction survives the removal.
pub proof fn lemma_kept_excludes(q: Seq<SerializedTransaction>, ts: Seq<SerializedTransaction>)
    ensures
        forall|i: int| 0 <= i < kept(q, ts).len() ==> !tx_in(#[trigger] kept(q, ts)[i], ts),
    decreases q.len(),
{
    if q.len() > 0 {
        lemma_kept_excludes(q.drop_last(), ts);
        let k0 = kept(q.drop_last(), ts);
        if !tx_in(q.last(), ts) {
            assert forall|i: int| 0 <= i < kept(q, ts).len() implies !tx_in(
                #[trigger] kept(q, ts)[i],
                ts,
            ) by {
                if i < k0.len() {
                    assert(kept(q, ts)[i] == k0[i]);
                } else {
                    assert(kept(q, ts)[i] == q.last());
                }
            }
        }
    }
}

pub struct Mempool {
    pub queue: Vec<SerializedTransaction>,
}

impl Mempool {
    /// The pending transactions, in storage order.
    pub open spec fn txs(self) -> Seq<SerializedTransaction> {
        self.queue@
    }

    /// Every entry carries a well-formed transfer token.
    pub open spec fn wf(self) -> bool {
        forall|i: int| 0 <= i < self.queue@.len() ==> amount_wf((#[trigger] self.queue@[i]).transfer@)
    }

    pub fn new() -> (r: Mempool)
        ensures
            r.txs() =~= Seq::<SerializedTransaction>::empty(),
            r.wf(),
    {
        Mempool { queue: Vec::new() }
    }

    pub fn len(&self) -> (r: usize)
        ensures
            r == self.txs().len(),
    {
        self.queue.len()
    }

    /// Admits a transaction; its transfer token must be well formed,
    /// which keeps the priority order total.
    pub fn push(&mut self, tx: SerializedTransaction)
        requires
            old(self).wf(),
            amount_wf(tx.transfer@),
        ensures
            final(self).txs() == old(self).txs().push(tx),
            final(self).wf(),
    {
        self.queue.push(tx);
    }

    /// Removes and returns an entry whose transfer is at least every
    /// other entry's; `None` on an empty pool.
    fn pop_max(&mut self) -> (r: Option<SerializedTransaction>)
        requires
            old(self).wf(),
        ensures
            final(self).wf(),
            old(self).txs().len() == 0 <==> r is None,
            r is None ==> final(self).txs() == old(self).txs(),
            (r matches Some(t) ==> {
                &&& old(self).txs().to_multiset() == final(self).txs().to_multiset().insert(t)
                &&& final(self).txs().len() + 1 == old(self).txs().len()
                &&& amount_wf(t.transfer@)
                &&& forall|i: int|
                    0 <= i < final(self).txs().len() ==> amount_le(
                        (#[trigger] final(self).txs()[i]).transfer@,
                        t.transfer@,
                    )
            }),
    {
        let n = self.queue.len();
        if n == 0 {
            return None;
        }
        let mut best: usize = 0;
        let mut i: usize = 1;
        while i < n
            invariant
                best < i <= n,
                n == self.queue@.len(),
                self.wf(),
                forall|j: int|
                    0 <= j < i ==> amount_le(
                        (#[trigger] self.queue@[j]).transfer@,
                        self.queue@[best as int].transfer@,
                    ),
            decreases n - i,
        {
            let c = amount_cmp(
                self.queue[i].transfer.as_str(),
                self.queue[best].transfer.as_str(),
            );
            if c > 0 {
                proof {
                    let e = self.queue@[i as int].transfer@;
                    let b = self.queue@[best as int].transfer@;
                    lemma_amount_le_total(b, e);
                    assert(amount_le(b, e));
                    assert forall|j: int| 0 <= j < i implies amount_le(
                        (#[trigger] self.queue@[j]).transfer@,
                        e,
                    ) by {
                        lemma_amount_le_trans(self.queue@[j].transfer@, b, e);
                    }
                }
                best = i;
            } else {
                proof {
                    let e = self.queue@[i as int].transfer@;
                    let b = self.queue@[best as int].transfer@;
                    if c == 0 {
                        lemma_amount_le_total(e, b);
                        if !amount_le(e, b) {
                            assert(amount_cmp_spec(e, b) == 1);
                        }
                    }
                    assert(amount_le(e, b));
                }
            }
            i = i + 1;
        }
        let t = self.queue.remove(best);
        proof {
            assert(old(self).txs().to_multiset() == final(self).txs().to_multiset().insert(t));
        }
        Some(t)
    }

    /// Removes and returns up to `k` entries, highest transfer first;
    /// everything returned outranks everything left behind.
    pub fn pop_batch(&mut self, k: usize) -> (r: Vec<SerializedTransaction>)
        requires
            old(self).wf(),
        ensures
            final(self).wf(),
            r@.len() == if old(self).txs().len() < k {
                old(self).txs().len()
            } else {
                k as nat
            },
            old(self).txs().to_multiset() == final(self).txs().to_multiset().add(
                r@.to_multiset(),
            ),
            forall|i: int, j: int|
                0 <= i <= j < r@.len() ==> amount_le(
                    (#[trigger] r@[j]).transfer@,
                    (#[trigger] r@[i]).transfer@,
                ),
            forall|i: int, j: int|
                0 <= i < r@.len() && 0 <= j < final(self).txs().len() ==> amount_le(
                    (#[trigger] final(self).txs()[j]).transfer@,
                    (#[trigger] r@[i]).transfer@,
                ),
            forall|i: int| 0 <= i < r@.len() ==> amount_wf((#[trigger] r@[i]).transfer@),
    {
        let mut r: Vec<SerializedTransaction> = Vec::new();
        let mut taken: usize = 0;
        proof {
            assert(old(self).txs().to_multiset() =~= self.txs().to_multiset().add(
                r@.to_multiset(),
            ));
        }
        while taken < k
            invariant
                self.wf(),
                r@.len() == taken,
                taken <= k,
                r@.len() + self.txs().len() == old(self).txs().len(),
                old(self).txs().to_multiset() == self.txs().to_multiset().add(r@.to_multiset()),
                forall|i: int, j: int|
                    0 <= i <= j < r@.len() ==> amount_le(
                        (#[trigger] r@[j]).transfer@,
                        (#[trigger] r@[i]).transfer@,
                    ),
                forall|i: int, j: int|
                    0 <= i < r@.len() && 0 <= j < self.txs().len() ==> amount_le(
                        (#[trigger] self.txs()[j]).transfer@,
                        (#[trigger] r@[i]).transfer@,
                    ),
                forall|i: int| 0 <= i < r@.len() ==> amount_wf((#[trigger] r@[i]).transfer@),
            decreases k - taken,
        {
            let ghost before = self.txs();
            match self.pop_max() {
                Some(t) => {
                    let ghost r_old = r@;
                    r.push(t);
                    proof {
                        assert(r@ == r_old.push(t));
                        assert(r@.to_multiset() == r_old.to_multiset().insert(t));
                        assert(before.to_multiset() == self.txs().to_multiset().insert(t));
                        assert(old(self).txs().to_multiset() =~= self.txs().to_multiset().add(
                            r@.to_multiset(),
                        ));
                        assert forall|i: int, j: int|
                            0 <= i <= j < r@.len() implies amount_le(
                            (#[trigger] r@[j]).transfer@,
                            (#[trigger] r@[i]).transfer@,
                        ) by {
                            if j < r@.len() - 1 {
                                assert(r@[i] == r_old[i]);
                                assert(r@[j] == r_old[j]);
                            } else if i < r@.len() - 1 {
                                assert(r@[i] == r_old[i]);
                                assert(r@[j] == t);
                                assert(before.to_multiset().count(t) > 0);
                                assert(before.contains(t));
                                let w = choose|w: int| 0 <= w < before.len() && before[w] == t;
                                assert(amount_le(before[w].transfer@, r_old[i].transfer@));
                            }
                        }
                        assert forall|i: int, j: int|
                            0 <= i < r@.len() && 0 <= j < self.txs().len() implies amount_le(
                            (#[trigger] self.txs()[j]).transfer@,
                            (#[trigger] r@[i]).transfer@,
                        ) by {
                            if i < r@.len() - 1 {
                                assert(r@[i] == r_old[i]);
                                assert(before.to_multiset().count(self.txs()[j]) > 0);
                                assert(before.contains(self.txs()[j]));
                                let w = choose|w: int|
                                    0 <= w < before.len() && before[w] == self.txs()[j];
                                assert(amount_le(before[w].transfer@, r_old[i].transfer@));
                            }
                        }
                    }
                    taken = taken + 1;
                },
                None => {
                    return r;
                },
            }
        }
        r
    }

    /// Up to four highest-priority transactions for the miner,
    /// highest transfer first; everything returned outranks
    /// everything left behind.
    pub fn get_transactions(&mut self) -> (r: Vec<SerializedTransaction>)
        requires
            old(self).wf(),
        ensures
            final(self).wf(),
            r@.len() == if old(self).txs().len() < 4 {
                old(self).txs().len()
            } else {
                4nat
            },
            old(self).txs().to_multiset() == final(self).txs().to_multiset().add(
                r@.to_multiset(),
            ),
            forall|i: int, j: int|
                0 <= i <= j < r@.len() ==> amount_le(
                    (#[trigger] r@[j]).transfer@,
                    (#[trigger] r@[i]).transfer@,
                ),
            forall|i: int, j: int|
                0 <= i < r@.len() && 0 <= j < final(self).txs().len() ==> amount_le(
                    (#[trigger] final(self).txs()[j]).transfer@,
                    (#[trigger] r@[i]).transfer@,
                ),
            forall|i: int| 0 <= i < r@.len() ==> amount_wf((#[trigger] r@[i]).transfer@),
    {
        self.pop_batch(4)
    }

    /// Drops every entry that matches one of `ts`: afterwards no
    /// entry of the pool matches a transaction of the block.
    pub fn remove_matching(&mut self, ts: &Vec<SerializedTransaction>)
        requires
            old(self).wf(),
        ensures
            final(self).wf(),
            final(self).txs() == kept(old(self).txs(), ts@),
            forall|i: int| 0 <= i < final(self).txs().len() ==> !tx_in(#[trigger] final(self).txs()[i], ts@),
    {
        let n = self.queue.len();
        let mut out: Vec<SerializedTransaction> = Vec::new();
        let mut i: usize = 0;
        while i < n
            invariant
                i <= n,
                n == self.queue@.len(),
                self.queue@ == old(self).txs(),
                self.wf(),
                out@ == kept(old(self).txs().subrange(0, i as int), ts@),
                forall|j: int| 0 <= j < out@.len() ==> amount_wf((#[trigger] out@[j]).transfer@),
            decreases n - i,
        {
            proof {
                let pre = old(self).txs().subrange(0, i + 1);
                assert(pre.drop_last() =~= old(self).txs().subrange(0, i as int));
                assert(pre.last() == old(self).txs()[i as int]);
            }
            if !contains_like(ts, &self.queue[i]) {
                out.push(self.queue[i].clone());
            }
            proof {
                assert(out@ =~= kept(old(self).txs().subrange(0, i + 1), ts@));
            }
            i = i + 1;
        }
        proof {
            assert(old(self).txs().subrange(0, n as int) =~= old(self).txs());
        }
        self.queue = out;
        proof {
            lemma_kept_excludes(old(self).txs(), ts@);
        }
    }
}

/// Whether some element of `ts` equals `t` in the wire sense.
pub fn contains_like(ts: &Vec<SerializedTransaction>, t: &SerializedTransaction) -> (r: bool)
    ensures
        r == tx_in(*t, ts@),
{
    let n = ts.len();
    let mut i: usize = 0;
    while i < n
        invariant
            i <= n,
            n == ts@.len(),
            forall|j: int| 0 <= j < i ==> !tx_like(*t, ts@[j]),
        decreases n - i,
    {
        if &ts[i] == t {
            proof {
                assert(tx_like(*t, ts@[i as int]));
            }
            return true;
        }
        i = i + 1;
    }
    false
}

} // verus!
