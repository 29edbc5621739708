//! The pending-transaction pool: a transient buffer of transactions not
//! yet included in a block, keyed by transaction id.
//!
//! The pool is not persisted and starts empty. Submitting a transaction
//! already present is a no-op; a transaction is removed once its id
//! appears in an accepted block.

use vstd::prelude::*;
use crate::transactions::{Transaction, TransactionV, txs_view, clone_txs};
use crate::utils::bytes_eq;

verus! {

/// Whether the pool holds a transaction with this id.
pub open spec fn pool_contains(s: Seq<TransactionV>, id: Seq<u8>) -> bool {
    exists|i: int| 0 <= i < s.len() && (#[trigger] s[i]).id == id
}

/// A well-formed pool: transaction ids unique.
pub open spec fn pool_wf(s: Seq<TransactionV>) -> bool {
    forall|i: int, j: int| 0 <= i < j < s.len() ==> (#[trigger] s[i]).id != (#[trigger] s[j]).id
}

/// Removes the first transaction carrying `id`, if any.
pub open spec fn remove_tx(s: Seq<TransactionV>, id: Seq<u8>) -> Seq<TransactionV>
    decreases s.len(),
{
    if s.len() == 0 {
        s
    } else if s[0].id == id {
        s.drop_first()
    } else {
        seq![s[0]] + remove_tx(s.drop_first(), id)
    }
}

/// `remove_tx` removes exactly the first position carrying `id`.
proof fn lemma_remove_tx_at(s: Seq<TransactionV>, id: Seq<u8>, p: int)
    requires
        0 <= p < s.len(),
        s[p].id == id,
        forall|k: int| 0 <= k < p ==> (#[trigger] s[k]).id != id,
    ensures
        remove_tx(s, id) == s.remove(p),
    decreases p,
{
    if p == 0 {
        assert(s.drop_first() =~= s.remove(0));
    } else {
        let df = s.drop_first();
        assert forall|k: int| 0 <= k < p - 1 implies (#[trigger] df[k]).id != id by {
            assert(df[k] == s[k + 1]);
        };
        assert(df[p - 1] == s[p]);
        lemma_remove_tx_at(df, id, p - 1);
        assert(seq![s[0]] + df.remove(p - 1) =~= s.remove(p));
    }
}

/// `remove_tx` is the identity when no transaction carries `id`.
proof fn lemma_remove_tx_absent(s: Seq<TransactionV>, id: Seq<u8>)
    requires
        forall|k: int| 0 <= k < s.len() ==> (#[trigger] s[k]).id != id,
    ensures
        remove_tx(s, id) == s,
    decreases s.len(),
{
    if s.len() > 0 {
        let df = s.drop_first();
        assert forall|k: int| 0 <= k < df.len() implies (#[trigger] df[k]).id != id by {
            assert(df[k] == s[k + 1]);
        };
        lemma_remove_tx_absent(df, id);
        assert(seq![s[0]] + df =~= s);
    }
}

/// Removal keeps ids unique and leaves no transaction carrying `id`.
proof fn lemma_remove_tx_wf(s: Seq<TransactionV>, id: Seq<u8>)
    requires
        pool_wf(s),
    ensures
        pool_wf(remove_tx(s, id)),
        !pool_contains(remove_tx(s, id), id),
    decreases s.len(),
{
    if s.len() == 0 {
    } else if s[0].id == id {
        let r = s.drop_first();
        assert forall|k: int| 0 <= k < r.len() implies (#[trigger] r[k]).id != id by {
            assert(r[k] == s[k + 1]);
            assert(s[k + 1].id != s[0].id);
        };
    } else {
        let df = s.drop_first();
        assert(pool_wf(df)) by {
            assert forall|k: int| 0 <= k < df.len() implies (#[trigger] df[k]) == s[k + 1] by {};
        };
        lemma_remove_tx_wf(df, id);
        let rest = remove_tx(df, id);
        let r = seq![s[0]] + rest;
        assert forall|k: int| 0 <= k < rest.len() implies (#[trigger] rest[k]).id != id by {};
        assert(!pool_contains(r, id)) by {
            if pool_contains(r, id) {
                let w = choose|i: int| 0 <= i < r.len() && (#[trigger] r[i]).id == id;
                if w > 0 {
                    assert(r[w] == rest[w - 1]);
                }
            }
        };
        assert(pool_wf(r)) by {
            lemma_remove_tx_subset(df, id);
            assert forall|a: int, b: int|
                0 <= a < b < r.len() implies (#[trigger] r[a]).id != (#[trigger] r[b]).id by {
                if a >= 1 {
                    assert(r[a] == rest[a - 1] && r[b] == rest[b - 1]);
                } else {
                    assert(r[b] == rest[b - 1]);
                    let x = rest[b - 1].id;
                    assert(pool_contains(rest, x));
                    assert(pool_contains(df, x));
                    let v = choose|i: int| 0 <= i < df.len() && (#[trigger] df[i]).id == x;
                    assert(df[v] == s[v + 1]);
                    assert(s[v + 1].id != s[0].id);
                }
            };
        };
    }
}

/// Whether every id in `remove_tx(s, id)` already stood in `s`.
pub open spec fn remove_tx_subset_ids(s: Seq<TransactionV>, id: Seq<u8>) -> bool {
    forall|x: Seq<u8>|
        #[trigger] pool_contains(remove_tx(s, id), x) ==> pool_contains(s, x)
}

/// Removal introduces no id.
pub proof fn lemma_remove_tx_subset(s: Seq<TransactionV>, id: Seq<u8>)
    ensures
        remove_tx_subset_ids(s, id),
    decreases s.len(),
{
    if s.len() == 0 {
    } else if s[0].id == id {
        assert forall|x: Seq<u8>|
            #[trigger] pool_contains(remove_tx(s, id), x) implies pool_contains(s, x) by {
            let r = s.drop_first();
            if pool_contains(r, x) {
                let w = choose|i: int| 0 <= i < r.len() && (#[trigger] r[i]).id == x;
                assert(s[w + 1].id == x);
            }
        };
    } else {
        lemma_remove_tx_subset(s.drop_first(), id);
        assert forall|x: Seq<u8>|
            #[trigger] pool_contains(remove_tx(s, id), x) implies pool_contains(s, x) by {
            let r = seq![s[0]] + remove_tx(s.drop_first(), id);
            if pool_contains(r, x) {
                let w = choose|i: int| 0 <= i < r.len() && (#[trigger] r[i]).id == x;
                if w == 0 {
                    assert(s[0].id == x);
                } else {
                    assert(pool_contains(remove_tx(s.drop_first(), id), x));
                    assert(pool_contains(s.drop_first(), x));
                    let v = choose|i: int|
                        0 <= i < s.drop_first().len() && (#[trigger] s.drop_first()[i]).id == x;
                    assert(s[v + 1].id == x);
                }
            }
        };
    }
}

/// The pending-transaction pool.
pub struct MemoryPool {
    pub txs: Vec<Transaction>,
}

impl View for MemoryPool {
    type V = Seq<TransactionV>;

    open spec fn view(&self) -> Seq<TransactionV> {
        txs_view(self.txs@)
    }
}

impl MemoryPool {
    /// An empty pool.
    pub fn new() -> (r: MemoryPool)
        ensures
            r@ == Seq::<TransactionV>::empty(),
            pool_wf(r@),
    {
        let r = MemoryPool { txs: Vec::new() };
        proof {
            assert(r@ =~= Seq::<TransactionV>::empty());
        }
        r
    }

    /// Whether the pool holds a transaction with this id.
    pub fn contains(&self, txid: &[u8]) -> (r: bool)
        ensures
            r == pool_contains(self@, txid@),
    {
        let mut i: usize = 0;
        while i < self.txs.len()
            invariant
                i <= self.txs@.len(),
                self@.len() == self.txs@.len(),
                forall|k: int| 0 <= k < i ==> (#[trigger] self@[k]).id != txid@,
            decreases self.txs@.len() - i,
        {
            if bytes_eq(self.txs[i].id.as_slice(), txid) {
                proof {
                    assert(self@[i as int].id == txid@);
                }
                return true;
            }
            i = i + 1;
        }
        false
    }

    /// Buffers `tx`; a transaction whose id is already present is left
    /// alone.
    pub fn submit(&mut self, tx: Transaction)
        requires
            pool_wf(old(self)@),
        ensures
            pool_wf(final(self)@),
            pool_contains(old(self)@, tx@.id) ==> final(self)@ == old(self)@,
            !pool_contains(old(self)@, tx@.id) ==> final(self)@ == old(self)@.push(tx@),
            pool_contains(final(self)@, tx@.id),
    {
        let ghost id = tx@.id;
        if self.contains(tx.id.as_slice()) {
            return;
        }
        self.txs.push(tx);
        proof {
            assert(self@ =~= old(self)@.push(tx@));
            assert(self@[self@.len() - 1].id == id);
        }
    }

    /// Drops the transaction with this id, if present.
    pub fn remove(&mut self, txid: &[u8])
        requires
            pool_wf(old(self)@),
        ensures
            final(self)@ == remove_tx(old(self)@, txid@),
            pool_wf(final(self)@),
            !pool_contains(final(self)@, txid@),
    {
        let mut i: usize = 0;
        while i < self.txs.len()
            invariant
                i <= self.txs@.len(),
                self@.len() == self.txs@.len(),
                self@ == old(self)@,
                pool_wf(old(self)@),
                forall|k: int| 0 <= k < i ==> (#[trigger] self@[k]).id != txid@,
            decreases self.txs@.len() - i,
        {
            if bytes_eq(self.txs[i].id.as_slice(), txid) {
                self.txs.remove(i);
                proof {
                    lemma_remove_tx_at(old(self)@, txid@, i as int);
                    lemma_remove_tx_wf(old(self)@, txid@);
                    assert(self@ =~= old(self)@.remove(i as int));
                }
                return;
            }
            i = i + 1;
        }
        proof {
            lemma_remove_tx_absent(old(self)@, txid@);
            lemma_remove_tx_wf(old(self)@, txid@);
        }
    }

    /// A copy of the buffered transactions, in storage order.
    pub fn snapshot(&self) -> (r: Vec<Transaction>)
        ensures
            txs_view(r@) == self@,
    {
        clone_txs(self.txs.as_slice())
    }

    /// The number of buffered transactions.
    pub fn len(&self) -> (r: usize)
        ensures
            r == self@.len(),
    {
        self.txs.len()
    }
}

} // verus!
