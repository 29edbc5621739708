//! The Unspent-Output Index: a derived, rebuildable index from transaction
//! ids to their currently-unspent outputs.
//!
//! The index is modelled as an ordered sequence of entries, one per
//! transaction id, each holding the indexed outputs not yet referenced by
//! any input. Folding a transaction first removes every output its inputs
//! reference — a missing reference is a consistency error — and then adds
//! the transaction's own outputs; a coinbase transaction contributes no
//! removals. A full rebuild walks the chain from genesis to tip and equals
//! the result of folding every block in append order.
//!
//! Double-spend exclusion holds with one narrowing: ids address entries,
//! so a later transaction carrying the very same id as a spent output's
//! transaction would re-create entries under that id. The exclusion
//! lemmas therefore ask that no transaction from the spend onward reuses
//! the id — ids are content digests, so only a duplicate transaction
//! could.

use vstd::prelude::*;
use crate::block::{Block, BlockV};
use crate::blockchain::Blockchain;
use crate::error::BlockchainError;
use crate::transactions::{Transaction, TransactionV, TxInputV, TxOutput, TxOutputV, txs_view};
use crate::utils::{bytes_eq, clone_bytes};

verus! {

/// One unspent output: its position in the owning transaction's output
/// list, and the output itself.
pub struct IndexedOutput {
    pub index: usize,
    pub output: TxOutput,
}

/// The outputs of one transaction that are still unspent.
pub struct UtxoEntry {
    pub txid: Vec<u8>,
    pub outputs: Vec<IndexedOutput>,
}

/// The index: entries in storage order, one per transaction id.
pub struct UTXOSet {
    pub entries: Vec<UtxoEntry>,
}

/// The mathematical value of an `IndexedOutput`.
pub ghost struct IndexedOutputV {
    pub index: int,
    pub output: TxOutputV,
}

/// The mathematical value of a `UtxoEntry`.
pub ghost struct UtxoEntryV {
    pub txid: Seq<u8>,
    pub outputs: Seq<IndexedOutputV>,
}

impl View for IndexedOutput {
    type V = IndexedOutputV;

    open spec fn view(&self) -> IndexedOutputV {
        IndexedOutputV { index: self.index as int, output: self.output@ }
    }
}

impl View for UtxoEntry {
    type V = UtxoEntryV;

    open spec fn view(&self) -> UtxoEntryV {
        UtxoEntryV { txid: self.txid@, outputs: self.outputs@.map_values(|o: IndexedOutput| o@) }
    }
}

/// The values of a sequence of entries.
pub open spec fn entries_view(s: Seq<UtxoEntry>) -> Seq<UtxoEntryV> {
    s.map_values(|e: UtxoEntry| e@)
}

impl View for UTXOSet {
    type V = Seq<UtxoEntryV>;

    open spec fn view(&self) -> Seq<UtxoEntryV> {
        entries_view(self.entries@)
    }
}

/// A well-formed index: transaction ids unique, every entry non-empty,
/// output indices unique within an entry.
pub open spec fn utxo_wf(s: Seq<UtxoEntryV>) -> bool {
    &&& forall|i: int, j: int|
        0 <= i < j < s.len() ==> (#[trigger] s[i]).txid != (#[trigger] s[j]).txid
    &&& forall|i: int| 0 <= i < s.len() ==> (#[trigger] s[i]).outputs.len() > 0
    &&& forall|i: int, a: int, b: int|
        0 <= i < s.len() && 0 <= a < b < s[i].outputs.len() ==> (#[trigger] s[i].outputs[a]).index
            != (#[trigger] s[i].outputs[b]).index
}

/// Whether the index holds output `idx` of transaction `txid` as unspent.
pub open spec fn has_outpoint(s: Seq<UtxoEntryV>, txid: Seq<u8>, idx: int) -> bool {
    exists|i: int, k: int|
        0 <= i < s.len() && 0 <= k < s[i].outputs.len() && s[i].txid == txid && (
        #[trigger] s[i].outputs[k]).index == idx
}

/// Removes the first output carrying `idx`; `None` when no output does.
pub open spec fn remove_output(outs: Seq<IndexedOutputV>, idx: int) -> Option<Seq<IndexedOutputV>>
    decreases outs.len(),
{
    if outs.len() == 0 {
        None
    } else if outs[0].index == idx {
        Some(outs.drop_first())
    } else {
        match remove_output(outs.drop_first(), idx) {
            Some(rest) => Some(seq![outs[0]] + rest),
            None => None,
        }
    }
}

/// Spends outpoint `(txid, idx)`: removes it from the entry carrying
/// `txid`, dropping the entry once empty; `None` when the outpoint is not
/// held unspent.
pub open spec fn spend_outpoint(s: Seq<UtxoEntryV>, txid: Seq<u8>, idx: int) -> Option<
    Seq<UtxoEntryV>,
>
    decreases s.len(),
{
    if s.len() == 0 {
        None
    } else if s[0].txid == txid {
        match remove_output(s[0].outputs, idx) {
            Some(outs) => Some(
                if outs.len() == 0 {
                    s.drop_first()
                } else {
                    seq![UtxoEntryV { txid: s[0].txid, outputs: outs }] + s.drop_first()
                },
            ),
            None => None,
        }
    } else {
        match spend_outpoint(s.drop_first(), txid, idx) {
            Some(rest) => Some(seq![s[0]] + rest),
            None => None,
        }
    }
}

/// Spends every outpoint referenced by `vin`, in order.
pub open spec fn spend_inputs(s: Seq<UtxoEntryV>, vin: Seq<TxInputV>) -> Option<Seq<UtxoEntryV>>
    decreases vin.len(),
{
    if vin.len() == 0 {
        Some(s)
    } else {
        match spend_inputs(s, vin.drop_last()) {
            Some(m) => spend_outpoint(m, vin.last().txid, vin.last().vout),
            None => None,
        }
    }
}

/// The fresh entry a transaction contributes: all of its outputs, indexed
/// by position.
pub open spec fn entry_of_tx(t: TransactionV) -> UtxoEntryV {
    UtxoEntryV {
        txid: t.id,
        outputs: Seq::new(t.vout.len(), |i: int| IndexedOutputV { index: i, output: t.vout[i] }),
    }
}

/// Inserts `e`, replacing the first entry with the same transaction id in
/// place, else appending at the end.
pub open spec fn insert_entry(s: Seq<UtxoEntryV>, e: UtxoEntryV) -> Seq<UtxoEntryV>
    decreases s.len(),
{
    if s.len() == 0 {
        seq![e]
    } else if s[0].txid == e.txid {
        seq![e] + s.drop_first()
    } else {
        seq![s[0]] + insert_entry(s.drop_first(), e)
    }
}

/// Folds one transaction: spends what its inputs reference, then adds its
/// own outputs. `None` on an unresolved reference or an output-less
/// transaction.
pub open spec fn apply_tx(s: Seq<UtxoEntryV>, t: TransactionV) -> Option<Seq<UtxoEntryV>> {
    if t.vout.len() == 0 {
        None
    } else {
        match spend_inputs(s, t.vin) {
            Some(m) => Some(insert_entry(m, entry_of_tx(t))),
            None => None,
        }
    }
}

/// Folds a list of transactions, in order.
pub open spec fn apply_txs(s: Seq<UtxoEntryV>, txs: Seq<TransactionV>) -> Option<Seq<UtxoEntryV>>
    decreases txs.len(),
{
    if txs.len() == 0 {
        Some(s)
    } else {
        match apply_txs(s, txs.drop_last()) {
            Some(m) => apply_tx(m, txs.last()),
            None => None,
        }
    }
}

/// Folds one block: its transactions, in order.
pub open spec fn block_fold(s: Seq<UtxoEntryV>, b: BlockV) -> Option<Seq<UtxoEntryV>> {
    apply_txs(s, b.transactions)
}

/// The index derived from a chain: every block folded from genesis to
/// tip, starting from the empty index.
pub open spec fn chain_utxo(c: Seq<BlockV>) -> Option<Seq<UtxoEntryV>>
    decreases c.len(),
{
    if c.len() == 0 {
        Some(Seq::empty())
    } else {
        match chain_utxo(c.drop_last()) {
            Some(s) => block_fold(s, c.last()),
            None => None,
        }
    }
}

/// `remove_output` removes exactly the first position carrying `idx`.
proof fn lemma_remove_output_at(outs: Seq<IndexedOutputV>, idx: int, p: int)
    requires
        0 <= p < outs.len(),
        outs[p].index == idx,
        forall|k: int| 0 <= k < p ==> outs[k].index != idx,
    ensures
        remove_output(outs, idx) == Some(outs.subrange(0, p) + outs.subrange(p + 1, outs.len() as int)),
    decreases p,
{
    if p == 0 {
        assert(outs.drop_first() =~= outs.subrange(0, 0) + outs.subrange(1, outs.len() as int));
    } else {
        let df = outs.drop_first();
        lemma_remove_output_at(df, idx, p - 1);
        assert(seq![outs[0]] + (df.subrange(0, p - 1) + df.subrange(p, df.len() as int)) =~= outs.subrange(
            0,
            p,
        ) + outs.subrange(p + 1, outs.len() as int));
    }
}

/// `remove_output` fails exactly when no output carries `idx`.
proof fn lemma_remove_output_none(outs: Seq<IndexedOutputV>, idx: int)
    requires
        forall|k: int| 0 <= k < outs.len() ==> outs[k].index != idx,
    ensures
        remove_output(outs, idx) is None,
    decreases outs.len(),
{
    if outs.len() > 0 {
        lemma_remove_output_none(outs.drop_first(), idx);
    }
}

/// Removal introduces no index that was absent before.
proof fn lemma_remove_output_no_new_index(outs: Seq<IndexedOutputV>, idx: int, i: int)
    requires
        forall|k: int| 0 <= k < outs.len() ==> outs[k].index != i,
    ensures
        match remove_output(outs, idx) {
            Some(r) => forall|k: int| 0 <= k < r.len() ==> r[k].index != i,
            None => true,
        },
    decreases outs.len(),
{
    if outs.len() > 0 && outs[0].index != idx {
        lemma_remove_output_no_new_index(outs.drop_first(), idx, i);
    }
}

/// Removal keeps indices pairwise distinct, shrinks the list by one and
/// leaves no output carrying the removed index.
proof fn lemma_remove_output_wf(outs: Seq<IndexedOutputV>, idx: int)
    requires
        forall|a: int, b: int|
            0 <= a < b < outs.len() ==> outs[a].index != outs[b].index,
    ensures
        match remove_output(outs, idx) {
            Some(r) => {
                &&& r.len() == outs.len() - 1
                &&& forall|a: int, b: int| 0 <= a < b < r.len() ==> r[a].index != r[b].index
                &&& forall|k: int| 0 <= k < r.len() ==> r[k].index != idx
            },
            None => true,
        },
    decreases outs.len(),
{
    if outs.len() == 0 {
    } else if outs[0].index == idx {
        let r = outs.drop_first();
        assert forall|k: int| 0 <= k < r.len() implies r[k].index != idx by {
            assert(r[k] == outs[k + 1]);
            assert(outs[k + 1].index != outs[0].index);
        };
    } else {
        let df = outs.drop_first();
        lemma_remove_output_wf(df, idx);
        match remove_output(df, idx) {
            Some(rest) => {
                let r = seq![outs[0]] + rest;
                assert forall|k: int| 0 <= k < df.len() implies df[k].index != outs[0].index by {
                    assert(df[k] == outs[k + 1]);
                };
                lemma_remove_output_no_new_index(df, idx, outs[0].index);
                assert forall|a: int, b: int| 0 <= a < b < r.len() implies r[a].index
                    != r[b].index by {
                    if a == 0 {
                        assert(rest[b - 1].index != outs[0].index);
                    }
                };
            },
            None => {},
        }
    }
}

/// Spending introduces no outpoint of a transaction id that held none.
proof fn lemma_spend_no_new_txid(s: Seq<UtxoEntryV>, txid: Seq<u8>, idx: int, x: Seq<u8>)
    requires
        forall|k: int| 0 <= k < s.len() ==> (#[trigger] s[k]).txid != x,
    ensures
        match spend_outpoint(s, txid, idx) {
            Some(r) => forall|k: int| 0 <= k < r.len() ==> (#[trigger] r[k]).txid != x,
            None => true,
        },
    decreases s.len(),
{
    if s.len() == 0 {
    } else if s[0].txid == txid {
    } else {
        lemma_spend_no_new_txid(s.drop_first(), txid, idx, x);
    }
}

/// Spending preserves well-formedness and removes the spent outpoint.
proof fn lemma_spend_wf(s: Seq<UtxoEntryV>, txid: Seq<u8>, idx: int)
    requires
        utxo_wf(s),
    ensures
        match spend_outpoint(s, txid, idx) {
            Some(r) => utxo_wf(r) && !has_outpoint(r, txid, idx),
            None => true,
        },
    decreases s.len(),
{
    if s.len() == 0 {
    } else if s[0].txid == txid {
        assert forall|a: int, b: int|
            0 <= a < b < s[0].outputs.len() implies s[0].outputs[a].index
            != s[0].outputs[b].index by {};
        lemma_remove_output_wf(s[0].outputs, idx);
        match remove_output(s[0].outputs, idx) {
            Some(outs) => {
                let df = s.drop_first();
                assert(utxo_wf(df)) by {
                    assert forall|k: int| 0 <= k < df.len() implies (#[trigger] df[k])
                        == s[k + 1] by {};
                };
                assert forall|k: int| 0 <= k < df.len() implies (#[trigger] df[k]).txid != txid by {
                    assert(df[k] == s[k + 1]);
                    assert(s[k + 1].txid != s[0].txid);
                };
                if outs.len() == 0 {
                    assert(!has_outpoint(df, txid, idx));
                } else {
                    let e = UtxoEntryV { txid: s[0].txid, outputs: outs };
                    let r = seq![e] + df;
                    assert(utxo_wf(r)) by {
                        assert forall|a: int, b: int|
                            0 <= a < b < r.len() implies (#[trigger] r[a]).txid != (
                        #[trigger] r[b]).txid by {
                            if a == 0 {
                                assert(r[b] == s[b]);
                            } else {
                                assert(r[a] == s[a] && r[b] == s[b]);
                            }
                        };
                    };
                    assert(!has_outpoint(r, txid, idx)) by {
                        if has_outpoint(r, txid, idx) {
                            let (i, k) = choose|i: int, k: int|
                                0 <= i < r.len() && 0 <= k < r[i].outputs.len() && r[i].txid
                                    == txid && (#[trigger] r[i].outputs[k]).index == idx;
                            if i == 0 {
                                assert(outs[k].index != idx);
                            } else {
                                assert(r[i] == s[i]);
                                assert(s[i].txid != s[0].txid);
                            }
                        }
                    };
                }
            },
            None => {},
        }
    } else {
        let df = s.drop_first();
        assert(utxo_wf(df)) by {
            assert forall|k: int| 0 <= k < df.len() implies (#[trigger] df[k]) == s[k + 1] by {};
        };
        lemma_spend_wf(df, txid, idx);
        match spend_outpoint(df, txid, idx) {
            Some(rest) => {
                let r = seq![s[0]] + rest;
                assert forall|k: int| 0 <= k < df.len() implies (#[trigger] df[k]).txid
                    != s[0].txid by {
                    assert(df[k] == s[k + 1]);
                };
                lemma_spend_no_new_txid(df, txid, idx, s[0].txid);
                assert(utxo_wf(r)) by {
                    assert forall|a: int, b: int|
                        0 <= a < b < r.len() implies (#[trigger] r[a]).txid != (
                    #[trigger] r[b]).txid by {
                        if a >= 1 {
                            assert(r[a] == rest[a - 1] && r[b] == rest[b - 1]);
                        }
                    };
                };
                assert(!has_outpoint(r, txid, idx)) by {
                    if has_outpoint(r, txid, idx) {
                        let (i, k) = choose|i: int, k: int|
                            0 <= i < r.len() && 0 <= k < r[i].outputs.len() && r[i].txid == txid
                                && (#[trigger] r[i].outputs[k]).index == idx;
                        if i == 0 {
                            assert(s[0].txid != txid);
                        } else {
                            assert(r[i] == rest[i - 1]);
                            assert(!has_outpoint(rest, txid, idx));
                        }
                    }
                };
            },
            None => {},
        }
    }
}

/// Spending a list of inputs preserves well-formedness.
proof fn lemma_spend_inputs_wf(s: Seq<UtxoEntryV>, vin: Seq<TxInputV>)
    requires
        utxo_wf(s),
    ensures
        match spend_inputs(s, vin) {
            Some(r) => utxo_wf(r),
            None => true,
        },
    decreases vin.len(),
{
    if vin.len() > 0 {
        lemma_spend_inputs_wf(s, vin.drop_last());
        match spend_inputs(s, vin.drop_last()) {
            Some(m) => {
                lemma_spend_wf(m, vin.last().txid, vin.last().vout);
            },
            None => {},
        }
    }
}

/// Insertion introduces no entry of a transaction id other than its own.
proof fn lemma_insert_no_new_txid(s: Seq<UtxoEntryV>, e: UtxoEntryV, x: Seq<u8>)
    requires
        forall|k: int| 0 <= k < s.len() ==> (#[trigger] s[k]).txid != x,
        e.txid != x,
    ensures
        forall|k: int|
            0 <= k < insert_entry(s, e).len() ==> (#[trigger] insert_entry(s, e)[k]).txid != x,
    decreases s.len(),
{
    if s.len() == 0 {
    } else if s[0].txid == e.txid {
    } else {
        lemma_insert_no_new_txid(s.drop_first(), e, x);
        let r = insert_entry(s, e);
        let rest = insert_entry(s.drop_first(), e);
        assert forall|k: int| 0 <= k < r.len() implies (#[trigger] r[k]).txid != x by {
            if k == 0 {
            } else {
                assert(r[k] == rest[k - 1]);
            }
        };
    }
}

/// Insertion of a non-empty entry with distinct indices preserves
/// well-formedness.
proof fn lemma_insert_wf(s: Seq<UtxoEntryV>, e: UtxoEntryV)
    requires
        utxo_wf(s),
        e.outputs.len() > 0,
        forall|a: int, b: int| 0 <= a < b < e.outputs.len() ==> e.outputs[a].index != e.outputs[b].index,
    ensures
        utxo_wf(insert_entry(s, e)),
    decreases s.len(),
{
    if s.len() == 0 {
    } else if s[0].txid == e.txid {
        let df = s.drop_first();
        let r = seq![e] + df;
        assert forall|k: int| 0 <= k < df.len() implies (#[trigger] df[k]) == s[k + 1] by {};
        assert forall|a: int, b: int|
            0 <= a < b < r.len() implies (#[trigger] r[a]).txid != (#[trigger] r[b]).txid by {
            if a == 0 {
                assert(r[b] == s[b]);
                assert(s[b].txid != s[0].txid);
            } else {
                assert(r[a] == s[a] && r[b] == s[b]);
            }
        };
    } else {
        let df = s.drop_first();
        assert(utxo_wf(df)) by {
            assert forall|k: int| 0 <= k < df.len() implies (#[trigger] df[k]) == s[k + 1] by {};
        };
        lemma_insert_wf(df, e);
        let rest = insert_entry(df, e);
        let r = seq![s[0]] + rest;
        assert forall|k: int| 0 <= k < df.len() implies (#[trigger] df[k]).txid != s[0].txid by {
            assert(df[k] == s[k + 1]);
        };
        lemma_insert_no_new_txid(df, e, s[0].txid);
        assert forall|a: int, b: int|
            0 <= a < b < r.len() implies (#[trigger] r[a]).txid != (#[trigger] r[b]).txid by {
            if a >= 1 {
                assert(r[a] == rest[a - 1] && r[b] == rest[b - 1]);
            }
        };
    }
}

/// Folding one transaction preserves well-formedness.
proof fn lemma_apply_tx_wf(s: Seq<UtxoEntryV>, t: TransactionV)
    requires
        utxo_wf(s),
    ensures
        match apply_tx(s, t) {
            Some(r) => utxo_wf(r),
            None => true,
        },
{
    if t.vout.len() > 0 {
        lemma_spend_inputs_wf(s, t.vin);
        match spend_inputs(s, t.vin) {
            Some(m) => {
                lemma_insert_wf(m, entry_of_tx(t));
            },
            None => {},
        }
    }
}

/// Folding a list of transactions preserves well-formedness.
proof fn lemma_apply_txs_wf(s: Seq<UtxoEntryV>, txs: Seq<TransactionV>)
    requires
        utxo_wf(s),
    ensures
        match apply_txs(s, txs) {
            Some(r) => utxo_wf(r),
            None => true,
        },
    decreases txs.len(),
{
    if txs.len() > 0 {
        lemma_apply_txs_wf(s, txs.drop_last());
        match apply_txs(s, txs.drop_last()) {
            Some(m) => {
                lemma_apply_tx_wf(m, txs.last());
            },
            None => {},
        }
    }
}

/// The index derived from any chain is well-formed.
pub proof fn lemma_chain_utxo_wf(c: Seq<BlockV>)
    ensures
        match chain_utxo(c) {
            Some(s) => utxo_wf(s),
            None => true,
        },
    decreases c.len(),
{
    if c.len() > 0 {
        lemma_chain_utxo_wf(c.drop_last());
        match chain_utxo(c.drop_last()) {
            Some(s) => {
                lemma_apply_txs_wf(s, c.last().transactions);
            },
            None => {},
        }
    }
}

/// `spend_outpoint` works on the first entry carrying the id.
proof fn lemma_spend_at(s: Seq<UtxoEntryV>, txid: Seq<u8>, idx: int, q: int)
    requires
        0 <= q < s.len(),
        s[q].txid == txid,
        forall|k: int| 0 <= k < q ==> (#[trigger] s[k]).txid != txid,
    ensures
        spend_outpoint(s, txid, idx) == (match remove_output(s[q].outputs, idx) {
            Some(outs) => Some(
                if outs.len() == 0 {
                    s.remove(q)
                } else {
                    s.update(q, UtxoEntryV { txid: s[q].txid, outputs: outs })
                },
            ),
            None => None::<Seq<UtxoEntryV>>,
        }),
    decreases q,
{
    if q == 0 {
        match remove_output(s[0].outputs, idx) {
            Some(outs) => {
                if outs.len() == 0 {
                    assert(s.drop_first() =~= s.remove(0));
                } else {
                    assert(seq![UtxoEntryV { txid: s[0].txid, outputs: outs }] + s.drop_first()
                        =~= s.update(0, UtxoEntryV { txid: s[0].txid, outputs: outs }));
                }
            },
            None => {},
        }
    } else {
        let df = s.drop_first();
        assert forall|k: int| 0 <= k < q - 1 implies (#[trigger] df[k]).txid != txid by {
            assert(df[k] == s[k + 1]);
        };
        assert(df[q - 1] == s[q]);
        lemma_spend_at(df, txid, idx, q - 1);
        match remove_output(s[q].outputs, idx) {
            Some(outs) => {
                if outs.len() == 0 {
                    assert(seq![s[0]] + df.remove(q - 1) =~= s.remove(q));
                } else {
                    let e = UtxoEntryV { txid: s[q].txid, outputs: outs };
                    assert(seq![s[0]] + df.update(q - 1, e) =~= s.update(q, e));
                }
            },
            None => {},
        }
    }
}

/// `spend_outpoint` fails when no entry carries the id.
proof fn lemma_spend_absent(s: Seq<UtxoEntryV>, txid: Seq<u8>, idx: int)
    requires
        forall|k: int| 0 <= k < s.len() ==> (#[trigger] s[k]).txid != txid,
    ensures
        spend_outpoint(s, txid, idx) is None,
    decreases s.len(),
{
    if s.len() > 0 {
        let df = s.drop_first();
        assert forall|k: int| 0 <= k < df.len() implies (#[trigger] df[k]).txid != txid by {
            assert(df[k] == s[k + 1]);
        };
        lemma_spend_absent(df, txid, idx);
    }
}

/// `insert_entry` replaces the first entry carrying the id in place.
proof fn lemma_insert_at(s: Seq<UtxoEntryV>, e: UtxoEntryV, q: int)
    requires
        0 <= q < s.len(),
        s[q].txid == e.txid,
        forall|k: int| 0 <= k < q ==> (#[trigger] s[k]).txid != e.txid,
    ensures
        insert_entry(s, e) == s.update(q, e),
    decreases q,
{
    if q == 0 {
        assert(seq![e] + s.drop_first() =~= s.update(0, e));
    } else {
        let df = s.drop_first();
        assert forall|k: int| 0 <= k < q - 1 implies (#[trigger] df[k]).txid != e.txid by {
            assert(df[k] == s[k + 1]);
        };
        assert(df[q - 1] == s[q]);
        lemma_insert_at(df, e, q - 1);
        assert(seq![s[0]] + df.update(q - 1, e) =~= s.update(q, e));
    }
}

/// `insert_entry` appends when no entry carries the id.
proof fn lemma_insert_absent(s: Seq<UtxoEntryV>, e: UtxoEntryV)
    requires
        forall|k: int| 0 <= k < s.len() ==> (#[trigger] s[k]).txid != e.txid,
    ensures
        insert_entry(s, e) == s.push(e),
    decreases s.len(),
{
    if s.len() == 0 {
        assert(seq![e] =~= s.push(e));
    } else {
        let df = s.drop_first();
        assert forall|k: int| 0 <= k < df.len() implies (#[trigger] df[k]).txid != e.txid by {
            assert(df[k] == s[k + 1]);
        };
        lemma_insert_absent(df, e);
        assert(seq![s[0]] + df.push(e) =~= s.push(e));
    }
}

/// A failed spend of a prefix of the inputs fails the whole list.
proof fn lemma_spend_inputs_extend_none(s: Seq<UtxoEntryV>, vin: Seq<TxInputV>, i: int)
    requires
        0 <= i <= vin.len(),
        spend_inputs(s, vin.take(i)) is None,
    ensures
        spend_inputs(s, vin) is None,
    decreases vin.len() - i,
{
    if i == vin.len() {
        assert(vin.take(i) =~= vin);
    } else {
        assert(vin.take(i + 1).drop_last() =~= vin.take(i));
        lemma_spend_inputs_extend_none(s, vin, i + 1);
    }
}

/// A failed fold of a prefix of the transactions fails the whole list.
proof fn lemma_apply_txs_extend_none(s: Seq<UtxoEntryV>, txs: Seq<TransactionV>, i: int)
    requires
        0 <= i <= txs.len(),
        apply_txs(s, txs.take(i)) is None,
    ensures
        apply_txs(s, txs) is None,
    decreases txs.len() - i,
{
    if i == txs.len() {
        assert(txs.take(i) =~= txs);
    } else {
        assert(txs.take(i + 1).drop_last() =~= txs.take(i));
        lemma_apply_txs_extend_none(s, txs, i + 1);
    }
}

/// A failed fold of a chain prefix fails the whole chain.
proof fn lemma_chain_utxo_extend_none(c: Seq<BlockV>, i: int)
    requires
        0 <= i <= c.len(),
        chain_utxo(c.take(i)) is None,
    ensures
        chain_utxo(c) is None,
    decreases c.len() - i,
{
    if i == c.len() {
        assert(c.take(i) =~= c);
    } else {
        assert(c.take(i + 1).drop_last() =~= c.take(i));
        lemma_chain_utxo_extend_none(c, i + 1);
    }
}

/// Finds the first entry carrying `txid`.
fn find_entry_pos(entries: &Vec<UtxoEntry>, txid: &[u8]) -> (r: Option<usize>)
    ensures
        match r {
            Some(q) => {
                &&& q < entries@.len()
                &&& entries@[q as int]@.txid == txid@
                &&& forall|k: int| 0 <= k < q ==> (#[trigger] entries@[k])@.txid != txid@
            },
            None => forall|k: int|
                0 <= k < entries@.len() ==> (#[trigger] entries@[k])@.txid != txid@,
        },
{
    let mut q: usize = 0;
    while q < entries.len()
        invariant
            q <= entries@.len(),
            forall|k: int| 0 <= k < q ==> (#[trigger] entries@[k])@.txid != txid@,
        decreases entries@.len() - q,
    {
        if bytes_eq(entries[q].txid.as_slice(), txid) {
            return Some(q);
        }
        q = q + 1;
    }
    None
}

/// Finds the first output carrying `idx`.
fn find_output_pos(outs: &Vec<IndexedOutput>, idx: usize) -> (r: Option<usize>)
    ensures
        match r {
            Some(p) => {
                &&& p < outs@.len()
                &&& outs@[p as int]@.index == idx as int
                &&& forall|k: int| 0 <= k < p ==> (#[trigger] outs@[k])@.index != idx as int
            },
            None => forall|k: int|
                0 <= k < outs@.len() ==> (#[trigger] outs@[k])@.index != idx as int,
        },
{
    let mut p: usize = 0;
    while p < outs.len()
        invariant
            p <= outs@.len(),
            forall|k: int| 0 <= k < p ==> (#[trigger] outs@[k])@.index != idx as int,
        decreases outs@.len() - p,
    {
        if outs[p].index == idx {
            return Some(p);
        }
        p = p + 1;
    }
    None
}

/// A copy of an output list.
fn clone_outputs(outs: &Vec<IndexedOutput>) -> (r: Vec<IndexedOutput>)
    ensures
        r@.map_values(|o: IndexedOutput| o@) == outs@.map_values(|o: IndexedOutput| o@),
{
    let mut r: Vec<IndexedOutput> = Vec::new();
    let mut i: usize = 0;
    while i < outs.len()
        invariant
            i <= outs@.len(),
            r@.len() == i,
            forall|k: int| 0 <= k < i ==> (#[trigger] r@[k])@ == outs@[k]@,
        decreases outs@.len() - i,
    {
        let o = IndexedOutput { index: outs[i].index, output: outs[i].output.clone_output() };
        r.push(o);
        i = i + 1;
    }
    proof {
        assert(r@.map_values(|o: IndexedOutput| o@) =~= outs@.map_values(|o: IndexedOutput| o@));
    }
    r
}

/// A copy of an entry.
fn clone_entry(e: &UtxoEntry) -> (r: UtxoEntry)
    ensures
        r@ == e@,
{
    UtxoEntry { txid: clone_bytes(e.txid.as_slice()), outputs: clone_outputs(&e.outputs) }
}

/// A copy of an entry list.
fn clone_entries(es: &Vec<UtxoEntry>) -> (r: Vec<UtxoEntry>)
    ensures
        entries_view(r@) == entries_view(es@),
{
    let mut r: Vec<UtxoEntry> = Vec::new();
    let mut i: usize = 0;
    while i < es.len()
        invariant
            i <= es@.len(),
            r@.len() == i,
            forall|k: int| 0 <= k < i ==> (#[trigger] r@[k])@ == es@[k]@,
        decreases es@.len() - i,
    {
        r.push(clone_entry(&es[i]));
        i = i + 1;
    }
    proof {
        assert(entries_view(r@) =~= entries_view(es@));
    }
    r
}

/// The fresh entry for `tx`: all of its outputs, indexed by position.
fn make_entry(tx: &Transaction) -> (r: UtxoEntry)
    ensures
        r@ == entry_of_tx(tx@),
{
    let txid = clone_bytes(tx.id.as_slice());
    let mut outputs: Vec<IndexedOutput> = Vec::new();
    let mut j: usize = 0;
    while j < tx.vout.len()
        invariant
            j <= tx.vout@.len(),
            outputs@.len() == j,
            forall|k: int|
                0 <= k < j ==> (#[trigger] outputs@[k])@ == (IndexedOutputV {
                    index: k,
                    output: tx.vout@[k]@,
                }),
        decreases tx.vout@.len() - j,
    {
        outputs.push(IndexedOutput { index: j, output: tx.vout[j].clone_output() });
        j = j + 1;
    }
    let r = UtxoEntry { txid, outputs };
    proof {
        assert(r@.outputs =~= entry_of_tx(tx@).outputs);
        assert(r@ == entry_of_tx(tx@));
    }
    r
}

/// Spends one outpoint in the entry list; fails exactly when the index
/// does not hold it unspent.
fn spend_one(entries: &Vec<UtxoEntry>, txid: &[u8], idx: usize) -> (r: Result<
    Vec<UtxoEntry>,
    BlockchainError,
>)
    ensures
        match r {
            Ok(v) => spend_outpoint(entries_view(entries@), txid@, idx as int) == Some(
                entries_view(v@),
            ),
            Err(e) => {
                &&& spend_outpoint(entries_view(entries@), txid@, idx as int) is None
                &&& e is ValidationError
            },
        },
{
    let ghost s = entries_view(entries@);
    let mut out = clone_entries(entries);
    let q = match find_entry_pos(&out, txid) {
        Some(q) => q,
        None => {
            proof {
                lemma_spend_absent(s, txid@, idx as int);
            }
            return Err(BlockchainError::ValidationError(
                String::from_str("input references an unknown transaction"),
            ));
        },
    };
    proof {
        lemma_spend_at(s, txid@, idx as int, q as int);
    }
    let p = match find_output_pos(&out[q].outputs, idx) {
        Some(p) => p,
        None => {
            proof {
                assert forall|k: int| 0 <= k < s[q as int].outputs.len() implies s[q as int].outputs[k].index
                    != idx as int by {
                    assert(s[q as int].outputs[k] == entries@[q as int]@.outputs[k]);
                };
                lemma_remove_output_none(s[q as int].outputs, idx as int);
            }
            return Err(BlockchainError::ValidationError(
                String::from_str("input references an output that is not unspent"),
            ));
        },
    };
    let mut entry = out.remove(q);
    let ghost old_outputs = s[q as int].outputs;
    entry.outputs.remove(p);
    proof {
        assert forall|k: int| 0 <= k < p implies old_outputs[k].index != idx as int by {};
        lemma_remove_output_at(old_outputs, idx as int, p as int);
        assert(entry@.outputs =~= old_outputs.subrange(0, p as int) + old_outputs.subrange(
            p + 1,
            old_outputs.len() as int,
        ));
    }
    if entry.outputs.len() > 0 {
        out.insert(q, entry);
        proof {
            let e = UtxoEntryV { txid: s[q as int].txid, outputs: entry@.outputs };
            assert(entry@ == e);
            assert(entries_view(out@) =~= s.update(q as int, e));
        }
    } else {
        proof {
            assert(entries_view(out@) =~= s.remove(q as int));
        }
    }
    Ok(out)
}

/// Folds one transaction into the entry list; fails exactly when a
/// reference does not resolve or the transaction has no outputs.
fn apply_tx_exec(entries: &Vec<UtxoEntry>, tx: &Transaction) -> (r: Result<
    Vec<UtxoEntry>,
    BlockchainError,
>)
    ensures
        match r {
            Ok(v) => apply_tx(entries_view(entries@), tx@) == Some(entries_view(v@)),
            Err(e) => {
                &&& apply_tx(entries_view(entries@), tx@) is None
                &&& e is ValidationError
            },
        },
{
    if tx.vout.len() == 0 {
        return Err(BlockchainError::ValidationError(
            String::from_str("transaction has no outputs"),
        ));
    }
    let ghost s0 = entries_view(entries@);
    let mut cur = clone_entries(entries);
    let mut i: usize = 0;
    while i < tx.vin.len()
        invariant
            i <= tx.vin@.len(),
            tx@.vin.len() == tx.vin@.len(),
            tx@.vout.len() > 0,
            s0 == entries_view(entries@),
            spend_inputs(s0, tx@.vin.take(i as int)) == Some(entries_view(cur@)),
        decreases tx.vin@.len() - i,
    {
        let txid_arg = clone_bytes(tx.vin[i].txid.as_slice());
        let vout_arg = tx.vin[i].vout;
        let next = spend_one(&cur, txid_arg.as_slice(), vout_arg);
        proof {
            assert(tx@.vin.take(i + 1).drop_last() =~= tx@.vin.take(i as int));
            assert(tx@.vin.take(i + 1).last() == tx@.vin[i as int]);
            assert(tx@.vin[i as int].txid == tx.vin@[i as int]@.txid);
        }
        cur = match next {
            Ok(v) => v,
            Err(e) => {
                proof {
                    assert(tx@.vin[i as int] == tx.vin@[i as int]@);
                    assert(tx@.vin[i as int].vout == vout_arg as int);
                    assert(spend_inputs(s0, tx@.vin.take(i + 1)) is None);
                    lemma_spend_inputs_extend_none(s0, tx@.vin, i + 1);
                    assert(spend_inputs(s0, tx@.vin) is None);
                    assert(apply_tx(s0, tx@) is None);
                }
                return Err(e);
            },
        };
        i = i + 1;
    }
    proof {
        assert(tx@.vin.take(tx.vin@.len() as int) =~= tx@.vin);
    }
    let ghost mid = entries_view(cur@);
    let entry = make_entry(tx);
    match find_entry_pos(&cur, tx.id.as_slice()) {
        Some(q) => {
            cur.remove(q);
            cur.insert(q, entry);
            proof {
                lemma_insert_at(mid, entry_of_tx(tx@), q as int);
                assert(entries_view(cur@) =~= mid.update(q as int, entry_of_tx(tx@)));
            }
        },
        None => {
            cur.push(entry);
            proof {
                lemma_insert_absent(mid, entry_of_tx(tx@));
                assert(entries_view(cur@) =~= mid.push(entry_of_tx(tx@)));
            }
        },
    }
    Ok(cur)
}

/// Folds a list of transactions, in order.
fn apply_txs_exec(entries: &Vec<UtxoEntry>, transactions: &[Transaction]) -> (r: Result<
    Vec<UtxoEntry>,
    BlockchainError,
>)
    ensures
        match r {
            Ok(v) => apply_txs(entries_view(entries@), txs_view(transactions@)) == Some(
                entries_view(v@),
            ),
            Err(e) => {
                &&& apply_txs(entries_view(entries@), txs_view(transactions@)) is None
                &&& e is ValidationError
            },
        },
{
    let ghost s0 = entries_view(entries@);
    let ghost txs = txs_view(transactions@);
    let mut cur = clone_entries(entries);
    let mut i: usize = 0;
    while i < transactions.len()
        invariant
            i <= transactions@.len(),
            txs == txs_view(transactions@),
            txs.len() == transactions@.len(),
            s0 == entries_view(entries@),
            apply_txs(s0, txs.take(i as int)) == Some(entries_view(cur@)),
        decreases transactions@.len() - i,
    {
        let next = apply_tx_exec(&cur, &transactions[i]);
        proof {
            assert(txs.take(i + 1).drop_last() =~= txs.take(i as int));
            assert(txs.take(i + 1).last() == txs[i as int]);
        }
        cur = match next {
            Ok(v) => v,
            Err(e) => {
                proof {
                    assert(apply_txs(s0, txs.take(i + 1)) is None);
                    lemma_apply_txs_extend_none(s0, txs, i + 1);
                    assert(apply_txs(s0, txs) is None);
                }
                return Err(e);
            },
        };
        i = i + 1;
    }
    proof {
        assert(txs.take(txs.len() as int) =~= txs);
    }
    Ok(cur)
}

/// Folds one block's transactions, in order.
fn apply_block_exec(entries: &Vec<UtxoEntry>, block: &Block) -> (r: Result<
    Vec<UtxoEntry>,
    BlockchainError,
>)
    ensures
        match r {
            Ok(v) => block_fold(entries_view(entries@), block@) == Some(entries_view(v@)),
            Err(e) => {
                &&& block_fold(entries_view(entries@), block@) is None
                &&& e is ValidationError
            },
        },
{
    apply_txs_exec(entries, block.transactions.as_slice())
}

impl UTXOSet {
    /// An empty index.
    pub fn new() -> (r: UTXOSet)
        ensures
            r@ == Seq::<UtxoEntryV>::empty(),
            utxo_wf(r@),
    {
        let r = UTXOSet { entries: Vec::new() };
        proof {
            assert(r@ =~= Seq::<UtxoEntryV>::empty());
        }
        r
    }

    /// Folds one newly appended block into the index. Fails exactly when
    /// a reference does not resolve (or a transaction has no outputs);
    /// the index is then unchanged.
    pub fn fold(&mut self, block: &Block) -> (r: Result<(), BlockchainError>)
        requires
            utxo_wf(old(self)@),
        ensures
            match r {
                Ok(()) => {
                    &&& block_fold(old(self)@, block@) == Some(final(self)@)
                    &&& utxo_wf(final(self)@)
                },
                Err(e) => {
                    &&& block_fold(old(self)@, block@) is None
                    &&& final(self)@ == old(self)@
                    &&& e is ValidationError
                },
            },
    {
        match apply_block_exec(&self.entries, block) {
            Ok(v) => {
                proof {
                    lemma_apply_txs_wf(self@, block@.transactions);
                }
                self.entries = v;
                Ok(())
            },
            Err(e) => Err(e),
        }
    }

    /// Whether one block would fold cleanly into the index.
    pub fn can_fold(&self, block: &Block) -> (r: bool)
        ensures
            r == (block_fold(self@, block@) is Some),
    {
        match apply_block_exec(&self.entries, block) {
            Ok(_) => true,
            Err(_) => false,
        }
    }

    /// Whether a list of transactions would fold cleanly into the index.
    pub fn can_apply(&self, transactions: &[Transaction]) -> (r: bool)
        ensures
            r == (apply_txs(self@, txs_view(transactions@)) is Some),
    {
        match apply_txs_exec(&self.entries, transactions) {
            Ok(_) => true,
            Err(_) => false,
        }
    }

    /// Whether the index holds output `idx` of transaction `txid` as
    /// unspent.
    pub fn contains_outpoint(&self, txid: &[u8], idx: usize) -> (r: bool)
        requires
            utxo_wf(self@),
        ensures
            r == has_outpoint(self@, txid@, idx as int),
    {
        let q = match find_entry_pos(&self.entries, txid) {
            Some(q) => q,
            None => {
                proof {
                    assert(!has_outpoint(self@, txid@, idx as int)) by {
                        if has_outpoint(self@, txid@, idx as int) {
                            let (i, k) = choose|i: int, k: int|
                                0 <= i < self@.len() && 0 <= k < self@[i].outputs.len()
                                    && self@[i].txid == txid@ && (
                                #[trigger] self@[i].outputs[k]).index == idx as int;
                            assert(self.entries@[i]@.txid == txid@);
                        }
                    };
                }
                return false;
            },
        };
        match find_output_pos(&self.entries[q].outputs, idx) {
            Some(p) => {
                proof {
                    assert(self@[q as int].txid == txid@);
                    assert(self@[q as int].outputs == self.entries@[
                        q as int
                    ]@.outputs);
                    assert(self@[q as int].outputs[p as int].index == idx as int);
                    assert(has_outpoint(self@, txid@, idx as int));
                }
                true
            },
            None => {
                proof {
                    assert(!has_outpoint(self@, txid@, idx as int)) by {
                        if has_outpoint(self@, txid@, idx as int) {
                            let (i, k) = choose|i: int, k: int|
                                0 <= i < self@.len() && 0 <= k < self@[i].outputs.len()
                                    && self@[i].txid == txid@ && (
                                #[trigger] self@[i].outputs[k]).index == idx as int;
                            assert(self.entries@[i]@.txid == txid@);
                            if i != q {
                                assert(self@[i].txid != self@[q as int].txid);
                            } else {
                                assert(self@[q as int].outputs[k]
                                    == self.entries@[q as int]@.outputs[k]);
                            }
                        }
                    };
                }
                false
            },
        }
    }

    /// Clears the index and rebuilds it by walking the chain once from
    /// genesis to tip. Fails exactly when some block fails to fold; the
    /// index is then unchanged.
    pub fn rebuild(&mut self, chain: &Blockchain) -> (r: Result<(), BlockchainError>)
        ensures
            match r {
                Ok(()) => {
                    &&& chain_utxo(chain@) == Some(final(self)@)
                    &&& utxo_wf(final(self)@)
                },
                Err(e) => {
                    &&& chain_utxo(chain@) is None
                    &&& final(self)@ == old(self)@
                    &&& e is ValidationError
                },
            },
    {
        let ghost c = chain@;
        let mut cur: Vec<UtxoEntry> = Vec::new();
        proof {
            assert(entries_view(cur@) =~= Seq::<UtxoEntryV>::empty());
            assert(c.take(0) =~= Seq::<BlockV>::empty());
        }
        let mut i: usize = 0;
        while i < chain.blocks.len()
            invariant
                i <= chain.blocks@.len(),
                c == chain@,
                c.len() == chain.blocks@.len(),
                chain_utxo(c.take(i as int)) == Some(entries_view(cur@)),
            decreases chain.blocks@.len() - i,
        {
            let next = apply_block_exec(&cur, &chain.blocks[i]);
            proof {
                assert(c.take(i + 1).drop_last() =~= c.take(i as int));
                assert(c.take(i + 1).last() == c[i as int]);
            }
            cur = match next {
                Ok(v) => v,
                Err(e) => {
                    proof {
                        assert(chain_utxo(c.take(i + 1)) is None);
                        lemma_chain_utxo_extend_none(c, i + 1);
                    }
                    return Err(e);
                },
            };
            i = i + 1;
        }
        proof {
            assert(c.take(c.len() as int) =~= c);
            lemma_chain_utxo_wf(c);
        }
        self.entries = cur;
        Ok(())
    }

    /// The number of transaction ids with at least one unspent output.
    pub fn count_distinct_transactions(&self) -> (r: usize)
        requires
            utxo_wf(self@),
        ensures
            r == self@.len(),
    {
        self.entries.len()
    }
}

/// One spendable output as reported to a transaction builder: the owning
/// transaction id, the output's position, and the output.
pub struct OwnedOutput {
    pub txid: Vec<u8>,
    pub index: usize,
    pub output: TxOutput,
}

/// The mathematical value of an `OwnedOutput`.
pub ghost struct OwnedOutputV {
    pub txid: Seq<u8>,
    pub index: int,
    pub output: TxOutputV,
}

impl View for OwnedOutput {
    type V = OwnedOutputV;

    open spec fn view(&self) -> OwnedOutputV {
        OwnedOutputV { txid: self.txid@, index: self.index as int, output: self.output@ }
    }
}

/// The values of a sequence of owned outputs.
pub open spec fn owned_view(s: Seq<OwnedOutput>) -> Seq<OwnedOutputV> {
    s.map_values(|o: OwnedOutput| o@)
}

/// The outputs of one entry locked to `owner`, in storage order.
pub open spec fn owned_in_outputs(txid: Seq<u8>, outs: Seq<IndexedOutputV>, owner: Seq<u8>) -> Seq<
    OwnedOutputV,
>
    decreases outs.len(),
{
    if outs.len() == 0 {
        Seq::empty()
    } else {
        owned_in_outputs(txid, outs.drop_last(), owner) + (if outs.last().output.pub_key_hash
            == owner {
            seq![OwnedOutputV { txid, index: outs.last().index, output: outs.last().output }]
        } else {
            Seq::empty()
        })
    }
}

/// Every unspent output locked to `owner`, in index-storage order.
pub open spec fn owned_outputs(s: Seq<UtxoEntryV>, owner: Seq<u8>) -> Seq<OwnedOutputV>
    decreases s.len(),
{
    if s.len() == 0 {
        Seq::empty()
    } else {
        owned_outputs(s.drop_last(), owner) + owned_in_outputs(
            s.last().txid,
            s.last().outputs,
            owner,
        )
    }
}

/// The total value of a list of owned outputs.
pub open spec fn sum_values(s: Seq<OwnedOutputV>) -> int
    decreases s.len(),
{
    if s.len() == 0 {
        0
    } else {
        sum_values(s.drop_last()) + s.last().output.value
    }
}

/// The total value of `n` outputs lies between 0 and `n` times the
/// largest output value.
proof fn lemma_sum_values_bound(s: Seq<OwnedOutputV>)
    ensures
        0 <= sum_values(s) <= s.len() * (u64::MAX as int),
    decreases s.len(),
{
    if s.len() == 0 {
    } else {
        lemma_sum_values_bound(s.drop_last());
        assert((s.len() - 1) * (u64::MAX as int) + (u64::MAX as int) == s.len() * (
        u64::MAX as int)) by (nonlinear_arith);
    }
}

impl UTXOSet {
    /// Every currently-unspent output locked to `pub_key_hash`, in
    /// index-storage order.
    pub fn find_by_owner(&self, pub_key_hash: &[u8]) -> (r: Vec<OwnedOutput>)
        ensures
            owned_view(r@) == owned_outputs(self@, pub_key_hash@),
    {
        let ghost u = self@;
        let ghost owner = pub_key_hash@;
        let mut r: Vec<OwnedOutput> = Vec::new();
        let mut i: usize = 0;
        while i < self.entries.len()
            invariant
                i <= self.entries@.len(),
                u == self@,
                owner == pub_key_hash@,
                u.len() == self.entries@.len(),
                owned_view(r@) == owned_outputs(u.take(i as int), owner),
            decreases self.entries@.len() - i,
        {
            let entry = &self.entries[i];
            let ghost outs = u[i as int].outputs;
            let mut j: usize = 0;
            while j < entry.outputs.len()
                invariant
                    j <= entry.outputs@.len(),
                    u == self@,
                    owner == pub_key_hash@,
                    i < u.len(),
                    u.len() == self.entries@.len(),
                    entry == &self.entries@[i as int],
                    outs == u[i as int].outputs,
                    outs.len() == entry.outputs@.len(),
                    owned_view(r@) == owned_outputs(u.take(i as int), owner) + owned_in_outputs(
                        u[i as int].txid,
                        outs.take(j as int),
                        owner,
                    ),
                decreases entry.outputs@.len() - j,
            {
                proof {
                    assert(outs.take(j + 1).drop_last() =~= outs.take(j as int));
                    assert(outs.take(j + 1).last() == outs[j as int]);
                    assert(outs[j as int] == entry.outputs@[j as int]@);
                    assert(u[i as int] == self.entries@[i as int]@);
                    assert(u[i as int].txid == entry.txid@);
                }
                if bytes_eq(entry.outputs[j].output.pub_key_hash.as_slice(), pub_key_hash) {
                    let o = OwnedOutput {
                        txid: clone_bytes(entry.txid.as_slice()),
                        index: entry.outputs[j].index,
                        output: entry.outputs[j].output.clone_output(),
                    };
                    let ghost r0 = r@;
                    r.push(o);
                    proof {
                        let x = OwnedOutputV {
                            txid: u[i as int].txid,
                            index: outs[j as int].index,
                            output: outs[j as int].output,
                        };
                        assert(o@ == x);
                        assert(outs[j as int].output.pub_key_hash == owner);
                        assert(owned_in_outputs(u[i as int].txid, outs.take(j + 1), owner)
                            == owned_in_outputs(u[i as int].txid, outs.take(j as int), owner)
                            + seq![x]);
                        assert(r@ == r0.push(o));
                        assert(owned_view(r0.push(o)) =~= owned_view(r0).push(o@));
                        assert(owned_view(r@) =~= owned_outputs(u.take(i as int), owner)
                            + owned_in_outputs(u[i as int].txid, outs.take(j + 1), owner));
                    }
                } else {
                    proof {
                        assert(owned_view(r@) =~= owned_outputs(u.take(i as int), owner)
                            + owned_in_outputs(u[i as int].txid, outs.take(j + 1), owner));
                    }
                }
                j = j + 1;
            }
            proof {
                assert(outs.take(outs.len() as int) =~= outs);
                assert(u.take(i + 1).drop_last() =~= u.take(i as int));
                assert(u.take(i + 1).last() == u[i as int]);
            }
            i = i + 1;
        }
        proof {
            assert(u.take(u.len() as int) =~= u);
        }
        r
    }

    /// Accumulates the owner's unspent outputs in index-storage order —
    /// first fit, not value-sorted — until the running total reaches
    /// `amount`; returns the selection and its total. Reports
    /// `InsufficientFunds` when the owner's outputs cannot cover `amount`,
    /// and `NotFoundError` when the owner has no outputs at all.
    pub fn select_spendable(&self, pub_key_hash: &[u8], amount: u64) -> (r: Result<
        (Vec<OwnedOutput>, u128),
        BlockchainError,
    >)
        ensures
            match r {
                Ok((sel, total)) => {
                    &&& sel@.len() <= owned_outputs(self@, pub_key_hash@).len()
                    &&& owned_view(sel@) == owned_outputs(self@, pub_key_hash@).take(
                        sel@.len() as int,
                    )
                    &&& total == sum_values(owned_view(sel@))
                    &&& total >= amount
                    &&& (sel@.len() == 0 || sum_values(
                        owned_outputs(self@, pub_key_hash@).take(sel@.len() - 1),
                    ) < amount)
                },
                Err(e) => {
                    &&& sum_values(owned_outputs(self@, pub_key_hash@)) < amount
                    &&& (e is NotFoundError <==> owned_outputs(self@, pub_key_hash@).len() == 0)
                    &&& (e is InsufficientFunds <==> owned_outputs(self@, pub_key_hash@).len() > 0)
                },
            },
    {
        let ghost ow = owned_outputs(self@, pub_key_hash@);
        let owned = self.find_by_owner(pub_key_hash);
        let mut sel: Vec<OwnedOutput> = Vec::new();
        let mut total: u128 = 0;
        if amount == 0 {
            proof {
                assert(owned_view(sel@) =~= ow.take(0));
            }
            return Ok((sel, 0));
        }
        let mut i: usize = 0;
        while i < owned.len()
            invariant
                i <= owned@.len(),
                ow == owned_outputs(self@, pub_key_hash@),
                owned_view(owned@) == ow,
                ow.len() == owned@.len(),
                sel@.len() == i,
                owned_view(sel@) == ow.take(i as int),
                total == sum_values(ow.take(i as int)),
                total < amount,
            decreases owned@.len() - i,
        {
            let o = OwnedOutput {
                txid: clone_bytes(owned[i].txid.as_slice()),
                index: owned[i].index,
                output: owned[i].output.clone_output(),
            };
            sel.push(o);
            let v = owned[i].output.value;
            proof {
                assert(ow.take(i + 1).drop_last() =~= ow.take(i as int));
                assert(ow.take(i + 1).last() == ow[i as int]);
                assert(ow[i as int] == owned@[i as int]@);
                assert(owned_view(sel@) =~= ow.take(i + 1));
            }
            total = total + (v as u128);
            i = i + 1;
            if total >= (amount as u128) {
                return Ok((sel, total));
            }
        }
        proof {
            assert(ow.take(ow.len() as int) =~= ow);
        }
        if owned.len() == 0 {
            Err(BlockchainError::NotFoundError(
                String::from_str("owner has no unspent outputs"),
            ))
        } else {
            Err(BlockchainError::InsufficientFunds)
        }
    }

    /// The total value of the owner's unspent outputs.
    pub fn get_balance(&self, pub_key_hash: &[u8]) -> (r: u128)
        ensures
            r == sum_values(owned_outputs(self@, pub_key_hash@)),
    {
        let ghost ow = owned_outputs(self@, pub_key_hash@);
        let owned = self.find_by_owner(pub_key_hash);
        let mut total: u128 = 0;
        let mut i: usize = 0;
        while i < owned.len()
            invariant
                i <= owned@.len(),
                ow == owned_outputs(self@, pub_key_hash@),
                owned_view(owned@) == ow,
                ow.len() == owned@.len(),
                total == sum_values(ow.take(i as int)),
            decreases owned@.len() - i,
        {
            let v = owned[i].output.value;
            proof {
                assert(ow.take(i + 1).drop_last() =~= ow.take(i as int));
                assert(ow.take(i + 1).last() == ow[i as int]);
                assert(ow[i as int] == owned@[i as int]@);
                lemma_sum_values_bound(ow.take(i + 1));
                lemma_sum_values_bound(ow.take(i as int));
                assert((i + 1) * (u64::MAX as int) < 0x100000000000000000000000000000000int)
                    by (nonlinear_arith)
                    requires
                        0 <= i + 1 <= 0x10000000000000000int,
                ;
            }
            total = total + (v as u128);
            i = i + 1;
        }
        proof {
            assert(ow.take(ow.len() as int) =~= ow);
        }
        total
    }
}

/// Spending one outpoint holds no outpoint that was absent before.
proof fn lemma_spend_preserves_absence(
    s: Seq<UtxoEntryV>,
    txid2: Seq<u8>,
    idx2: int,
    txid: Seq<u8>,
    idx: int,
)
    requires
        !has_outpoint(s, txid, idx),
    ensures
        match spend_outpoint(s, txid2, idx2) {
            Some(r) => !has_outpoint(r, txid, idx),
            None => true,
        },
    decreases s.len(),
{
    if s.len() == 0 {
    } else if s[0].txid == txid2 {
        match remove_output(s[0].outputs, idx2) {
            Some(outs) => {
                let df = s.drop_first();
                assert(!has_outpoint(df, txid, idx)) by {
                    if has_outpoint(df, txid, idx) {
                        let (i, k) = choose|i: int, k: int|
                            0 <= i < df.len() && 0 <= k < df[i].outputs.len() && df[i].txid == txid
                                && (#[trigger] df[i].outputs[k]).index == idx;
                        assert(df[i] == s[i + 1]);
                        assert(s[i + 1].outputs[k].index == idx);
                    }
                };
                if outs.len() == 0 {
                } else {
                    let e = UtxoEntryV { txid: s[0].txid, outputs: outs };
                    let r = seq![e] + df;
                    assert(!has_outpoint(r, txid, idx)) by {
                        if has_outpoint(r, txid, idx) {
                            let (i, k) = choose|i: int, k: int|
                                0 <= i < r.len() && 0 <= k < r[i].outputs.len() && r[i].txid == txid
                                    && (#[trigger] r[i].outputs[k]).index == idx;
                            if i == 0 {
                                assert(s[0].txid == txid);
                                assert forall|p: int|
                                    0 <= p < s[0].outputs.len() implies s[0].outputs[p].index
                                    != idx by {
                                    assert(!has_outpoint(s, txid, idx));
                                };
                                lemma_remove_output_no_new_index(s[0].outputs, idx2, idx);
                                assert(outs[k].index != idx);
                            } else {
                                assert(r[i] == df[i - 1]);
                                assert(df[i - 1].outputs[k].index == idx);
                            }
                        }
                    };
                }
            },
            None => {},
        }
    } else {
        let df = s.drop_first();
        assert(!has_outpoint(df, txid, idx)) by {
            if has_outpoint(df, txid, idx) {
                let (i, k) = choose|i: int, k: int|
                    0 <= i < df.len() && 0 <= k < df[i].outputs.len() && df[i].txid == txid && (
                    #[trigger] df[i].outputs[k]).index == idx;
                assert(df[i] == s[i + 1]);
                assert(s[i + 1].outputs[k].index == idx);
            }
        };
        lemma_spend_preserves_absence(df, txid2, idx2, txid, idx);
        match spend_outpoint(df, txid2, idx2) {
            Some(rest) => {
                let r = seq![s[0]] + rest;
                assert(!has_outpoint(r, txid, idx)) by {
                    if has_outpoint(r, txid, idx) {
                        let (i, k) = choose|i: int, k: int|
                            0 <= i < r.len() && 0 <= k < r[i].outputs.len() && r[i].txid == txid
                                && (#[trigger] r[i].outputs[k]).index == idx;
                        if i == 0 {
                            assert(s[0].outputs[k].index == idx);
                        } else {
                            assert(r[i] == rest[i - 1]);
                            assert(rest[i - 1].outputs[k].index == idx);
                        }
                    }
                };
            },
            None => {},
        }
    }
}

/// Inserting an entry of another transaction id holds no outpoint of
/// `txid` that was absent before.
proof fn lemma_insert_preserves_absence(s: Seq<UtxoEntryV>, e: UtxoEntryV, txid: Seq<u8>, idx: int)
    requires
        !has_outpoint(s, txid, idx),
        e.txid != txid,
    ensures
        !has_outpoint(insert_entry(s, e), txid, idx),
    decreases s.len(),
{
    if s.len() == 0 {
        let r = seq![e];
        if has_outpoint(r, txid, idx) {
            let (i, k) = choose|i: int, k: int|
                0 <= i < r.len() && 0 <= k < r[i].outputs.len() && r[i].txid == txid && (
                #[trigger] r[i].outputs[k]).index == idx;
            assert(r[0].txid != txid);
        }
    } else if s[0].txid == e.txid {
        let df = s.drop_first();
        let r = seq![e] + df;
        assert(!has_outpoint(df, txid, idx)) by {
            if has_outpoint(df, txid, idx) {
                let (i, k) = choose|i: int, k: int|
                    0 <= i < df.len() && 0 <= k < df[i].outputs.len() && df[i].txid == txid && (
                    #[trigger] df[i].outputs[k]).index == idx;
                assert(df[i] == s[i + 1]);
                assert(s[i + 1].outputs[k].index == idx);
            }
        };
        if has_outpoint(r, txid, idx) {
            let (i, k) = choose|i: int, k: int|
                0 <= i < r.len() && 0 <= k < r[i].outputs.len() && r[i].txid == txid && (
                #[trigger] r[i].outputs[k]).index == idx;
            if i == 0 {
            } else {
                assert(r[i] == df[i - 1]);
                assert(df[i - 1].outputs[k].index == idx);
            }
        }
    } else {
        let df = s.drop_first();
        assert(!has_outpoint(df, txid, idx)) by {
            if has_outpoint(df, txid, idx) {
                let (i, k) = choose|i: int, k: int|
                    0 <= i < df.len() && 0 <= k < df[i].outputs.len() && df[i].txid == txid && (
                    #[trigger] df[i].outputs[k]).index == idx;
                assert(df[i] == s[i + 1]);
                assert(s[i + 1].outputs[k].index == idx);
            }
        };
        lemma_insert_preserves_absence(df, e, txid, idx);
        let rest = insert_entry(df, e);
        let r = seq![s[0]] + rest;
        if has_outpoint(r, txid, idx) {
            let (i, k) = choose|i: int, k: int|
                0 <= i < r.len() && 0 <= k < r[i].outputs.len() && r[i].txid == txid && (
                #[trigger] r[i].outputs[k]).index == idx;
            if i == 0 {
                assert(s[0].outputs[k].index == idx);
            } else {
                assert(r[i] == rest[i - 1]);
                assert(rest[i - 1].outputs[k].index == idx);
            }
        }
    }
}

/// Spending a list of inputs holds no outpoint that was absent before.
proof fn lemma_spend_inputs_preserves_absence(
    s: Seq<UtxoEntryV>,
    vin: Seq<TxInputV>,
    txid: Seq<u8>,
    idx: int,
)
    requires
        !has_outpoint(s, txid, idx),
    ensures
        match spend_inputs(s, vin) {
            Some(r) => !has_outpoint(r, txid, idx),
            None => true,
        },
    decreases vin.len(),
{
    if vin.len() > 0 {
        lemma_spend_inputs_preserves_absence(s, vin.drop_last(), txid, idx);
        match spend_inputs(s, vin.drop_last()) {
            Some(m) => {
                lemma_spend_preserves_absence(m, vin.last().txid, vin.last().vout, txid, idx);
            },
            None => {},
        }
    }
}

/// After spending a list of inputs, an outpoint one of them references
/// is no longer held.
proof fn lemma_spend_inputs_remove_referenced(
    s: Seq<UtxoEntryV>,
    vin: Seq<TxInputV>,
    k: int,
    txid: Seq<u8>,
    idx: int,
)
    requires
        utxo_wf(s),
        0 <= k < vin.len(),
        vin[k].txid == txid,
        vin[k].vout == idx,
    ensures
        match spend_inputs(s, vin) {
            Some(r) => !has_outpoint(r, txid, idx),
            None => true,
        },
    decreases vin.len(),
{
    if vin.len() > 0 {
        lemma_spend_inputs_wf(s, vin.drop_last());
        match spend_inputs(s, vin.drop_last()) {
            Some(m) => {
                if k == vin.len() - 1 {
                    lemma_spend_wf(m, txid, idx);
                } else {
                    assert(vin.drop_last()[k] == vin[k]);
                    lemma_spend_inputs_remove_referenced(s, vin.drop_last(), k, txid, idx);
                    lemma_spend_preserves_absence(m, vin.last().txid, vin.last().vout, txid, idx);
                }
            },
            None => {},
        }
    }
}

/// Folding one transaction that spends an outpoint removes it, provided
/// the transaction's own id differs.
proof fn lemma_apply_tx_spends(s: Seq<UtxoEntryV>, t: TransactionV, k: int, txid: Seq<u8>, idx: int)
    requires
        utxo_wf(s),
        0 <= k < t.vin.len(),
        t.vin[k].txid == txid,
        t.vin[k].vout == idx,
        t.id != txid,
    ensures
        match apply_tx(s, t) {
            Some(r) => !has_outpoint(r, txid, idx),
            None => true,
        },
{
    if t.vout.len() > 0 {
        lemma_spend_inputs_remove_referenced(s, t.vin, k, txid, idx);
        match spend_inputs(s, t.vin) {
            Some(m) => {
                lemma_insert_preserves_absence(m, entry_of_tx(t), txid, idx);
            },
            None => {},
        }
    }
}

/// Folding one transaction of another id holds no outpoint that was
/// absent before.
proof fn lemma_apply_tx_preserves_absence(
    s: Seq<UtxoEntryV>,
    t: TransactionV,
    txid: Seq<u8>,
    idx: int,
)
    requires
        !has_outpoint(s, txid, idx),
        t.id != txid,
    ensures
        match apply_tx(s, t) {
            Some(r) => !has_outpoint(r, txid, idx),
            None => true,
        },
{
    if t.vout.len() > 0 {
        lemma_spend_inputs_preserves_absence(s, t.vin, txid, idx);
        match spend_inputs(s, t.vin) {
            Some(m) => {
                lemma_insert_preserves_absence(m, entry_of_tx(t), txid, idx);
            },
            None => {},
        }
    }
}

/// Folding transactions none of which carries id `txid` holds no
/// outpoint of `txid` that was absent before.
pub proof fn lemma_apply_txs_preserves_absence(
    s: Seq<UtxoEntryV>,
    txs: Seq<TransactionV>,
    txid: Seq<u8>,
    idx: int,
)
    requires
        !has_outpoint(s, txid, idx),
        forall|m: int| 0 <= m < txs.len() ==> (#[trigger] txs[m]).id != txid,
    ensures
        match apply_txs(s, txs) {
            Some(r) => !has_outpoint(r, txid, idx),
            None => true,
        },
    decreases txs.len(),
{
    if txs.len() > 0 {
        lemma_apply_txs_preserves_absence(s, txs.drop_last(), txid, idx);
        match apply_txs(s, txs.drop_last()) {
            Some(m) => {
                lemma_apply_tx_preserves_absence(m, txs.last(), txid, idx);
            },
            None => {},
        }
    }
}

/// Double-spend exclusion: once a block's transaction spends output
/// `idx` of transaction `txid`, the folded index no longer holds that
/// outpoint — provided no transaction of the block reuses the id `txid`
/// itself.
pub proof fn lemma_spent_outpoint_excluded(
    s: Seq<UtxoEntryV>,
    b: BlockV,
    j: int,
    k: int,
    txid: Seq<u8>,
    idx: int,
)
    requires
        utxo_wf(s),
        0 <= j < b.transactions.len(),
        0 <= k < b.transactions[j].vin.len(),
        b.transactions[j].vin[k].txid == txid,
        b.transactions[j].vin[k].vout == idx,
        forall|m: int| 0 <= m < b.transactions.len() ==> (#[trigger] b.transactions[m]).id != txid,
    ensures
        match block_fold(s, b) {
            Some(r) => !has_outpoint(r, txid, idx),
            None => true,
        },
{
    lemma_apply_txs_spent(s, b.transactions, j, k, txid, idx);
}

/// The transaction-list form of double-spend exclusion.
proof fn lemma_apply_txs_spent(
    s: Seq<UtxoEntryV>,
    txs: Seq<TransactionV>,
    j: int,
    k: int,
    txid: Seq<u8>,
    idx: int,
)
    requires
        utxo_wf(s),
        0 <= j < txs.len(),
        0 <= k < txs[j].vin.len(),
        txs[j].vin[k].txid == txid,
        txs[j].vin[k].vout == idx,
        forall|m: int| 0 <= m < txs.len() ==> (#[trigger] txs[m]).id != txid,
    ensures
        match apply_txs(s, txs) {
            Some(r) => !has_outpoint(r, txid, idx),
            None => true,
        },
    decreases txs.len(),
{
    lemma_apply_txs_wf(s, txs.drop_last());
    match apply_txs(s, txs.drop_last()) {
        Some(m) => {
            if j == txs.len() - 1 {
                lemma_apply_tx_spends(m, txs.last(), k, txid, idx);
            } else {
                assert(txs.drop_last()[j] == txs[j]);
                assert forall|n: int|
                    0 <= n < txs.drop_last().len() implies (#[trigger] txs.drop_last()[n]).id
                    != txid by {
                    assert(txs.drop_last()[n] == txs[n]);
                };
                lemma_apply_txs_spent(s, txs.drop_last(), j, k, txid, idx);
                lemma_apply_tx_preserves_absence(m, txs.last(), txid, idx);
            }
        },
        None => {},
    }
}

/// Everything `owned_in_outputs` lists stands in the output list under
/// the same transaction id.
proof fn lemma_owned_in_outputs_member(txid: Seq<u8>, outs: Seq<IndexedOutputV>, owner: Seq<u8>)
    ensures
        forall|k: int|
            0 <= k < owned_in_outputs(txid, outs, owner).len() ==> {
                let o = #[trigger] owned_in_outputs(txid, outs, owner)[k];
                o.txid == txid && exists|p: int|
                    0 <= p < outs.len() && (#[trigger] outs[p]).index == o.index
            },
    decreases outs.len(),
{
    if outs.len() > 0 {
        lemma_owned_in_outputs_member(txid, outs.drop_last(), owner);
        let r = owned_in_outputs(txid, outs, owner);
        let prev = owned_in_outputs(txid, outs.drop_last(), owner);
        assert forall|k: int| 0 <= k < r.len() implies {
            let o = #[trigger] r[k];
            o.txid == txid && exists|p: int|
                0 <= p < outs.len() && (#[trigger] outs[p]).index == o.index
        } by {
            if k < prev.len() {
                let o = prev[k];
                let p = choose|p: int|
                    0 <= p < outs.drop_last().len() && (#[trigger] outs.drop_last()[p]).index
                        == o.index;
                assert(outs[p] == outs.drop_last()[p]);
            } else {
                assert(r[k].index == outs.last().index);
                assert(outs[outs.len() - 1].index == r[k].index);
            }
        };
    }
}

/// Everything `find_by_owner` reports is an outpoint the index holds
/// unspent: a spent output is never returned again.
pub proof fn lemma_owned_outputs_are_unspent(s: Seq<UtxoEntryV>, owner: Seq<u8>)
    ensures
        forall|k: int|
            0 <= k < owned_outputs(s, owner).len() ==> has_outpoint(
                s,
                (#[trigger] owned_outputs(s, owner)[k]).txid,
                owned_outputs(s, owner)[k].index,
            ),
    decreases s.len(),
{
    if s.len() > 0 {
        let t = s.drop_last();
        lemma_owned_outputs_are_unspent(t, owner);
        let last = s.last();
        lemma_owned_in_outputs_member(last.txid, last.outputs, owner);
        let r = owned_outputs(s, owner);
        let prev = owned_outputs(t, owner);
        let tail = owned_in_outputs(last.txid, last.outputs, owner);
        assert forall|k: int| 0 <= k < r.len() implies has_outpoint(
            s,
            (#[trigger] r[k]).txid,
            r[k].index,
        ) by {
            if k < prev.len() {
                assert(has_outpoint(t, prev[k].txid, prev[k].index));
                let (i, q) = choose|i: int, q: int|
                    0 <= i < t.len() && 0 <= q < t[i].outputs.len() && t[i].txid == prev[k].txid
                        && (#[trigger] t[i].outputs[q]).index == prev[k].index;
                assert(t[i] == s[i]);
                assert(s[i].outputs[q].index == prev[k].index);
            } else {
                let o = tail[k - prev.len()];
                let p = choose|p: int|
                    0 <= p < last.outputs.len() && (#[trigger] last.outputs[p]).index == o.index;
                assert(s[s.len() - 1] == last);
                assert(s[s.len() - 1].outputs[p].index == o.index);
            }
        };
    }
}

/// Chain-level double-spend exclusion: once block `j` of a chain spends
/// output `idx` of transaction `txid`, the index derived from the whole
/// chain no longer holds that outpoint — provided no transaction from
/// block `j` onward reuses the id `txid` itself.
pub proof fn lemma_chain_spent_outpoint_excluded(
    c: Seq<BlockV>,
    j: int,
    tj: int,
    k: int,
    txid: Seq<u8>,
    idx: int,
)
    requires
        0 <= j < c.len(),
        0 <= tj < c[j].transactions.len(),
        0 <= k < c[j].transactions[tj].vin.len(),
        c[j].transactions[tj].vin[k].txid == txid,
        c[j].transactions[tj].vin[k].vout == idx,
        forall|m: int, n: int|
            j <= m < c.len() && 0 <= n < c[m].transactions.len() ==> (#[trigger] c[m].transactions[n]).id
                != txid,
    ensures
        match chain_utxo(c) {
            Some(u) => !has_outpoint(u, txid, idx),
            None => true,
        },
    decreases c.len(),
{
    let t = c.drop_last();
    lemma_chain_utxo_wf(t);
    match chain_utxo(t) {
        Some(m) => {
            if j == c.len() - 1 {
                assert forall|n: int|
                    0 <= n < c.last().transactions.len() implies (
                #[trigger] c.last().transactions[n]).id != txid by {
                    assert(c[c.len() - 1].transactions[n].id != txid);
                };
                lemma_spent_outpoint_excluded(m, c.last(), tj, k, txid, idx);
            } else {
                assert(t[j] == c[j]);
                assert forall|m2: int, n: int|
                    j <= m2 < t.len() && 0 <= n < t[m2].transactions.len() implies (
                #[trigger] t[m2].transactions[n]).id != txid by {
                    assert(t[m2] == c[m2]);
                    assert(c[m2].transactions[n].id != txid);
                };
                lemma_chain_spent_outpoint_excluded(t, j, tj, k, txid, idx);
                assert forall|n: int|
                    0 <= n < c.last().transactions.len() implies (
                #[trigger] c.last().transactions[n]).id != txid by {
                    assert(c[c.len() - 1].transactions[n].id != txid);
                };
                lemma_apply_txs_preserves_absence(m, c.last().transactions, txid, idx);
            }
        },
        None => {},
    }
}

/// Once block `j` of a chain spends output `idx` of transaction `txid`,
/// no owner query on the derived index returns that outpoint again —
/// provided no transaction from block `j` onward reuses the id `txid`.
pub proof fn lemma_spent_output_never_returned(
    c: Seq<BlockV>,
    j: int,
    tj: int,
    k: int,
    txid: Seq<u8>,
    idx: int,
    owner: Seq<u8>,
)
    requires
        0 <= j < c.len(),
        0 <= tj < c[j].transactions.len(),
        0 <= k < c[j].transactions[tj].vin.len(),
        c[j].transactions[tj].vin[k].txid == txid,
        c[j].transactions[tj].vin[k].vout == idx,
        forall|m: int, n: int|
            j <= m < c.len() && 0 <= n < c[m].transactions.len() ==> (#[trigger] c[m].transactions[n]).id
                != txid,
    ensures
        match chain_utxo(c) {
            Some(u) => forall|n: int|
                0 <= n < owned_outputs(u, owner).len() ==> !((#[trigger] owned_outputs(u, owner)[n]).txid
                    == txid && owned_outputs(u, owner)[n].index == idx),
            None => true,
        },
{
    lemma_chain_spent_outpoint_excluded(c, j, tj, k, txid, idx);
    match chain_utxo(c) {
        Some(u) => {
            lemma_owned_outputs_are_unspent(u, owner);
            assert forall|n: int|
                0 <= n < owned_outputs(u, owner).len() implies !((
            #[trigger] owned_outputs(u, owner)[n]).txid == txid && owned_outputs(u, owner)[n].index
                == idx) by {
                assert(has_outpoint(u, owned_outputs(u, owner)[n].txid, owned_outputs(u, owner)[n].index));
            };
        },
        None => {},
    }
}

/// Rebuilding after one more block equals folding that block into the
/// index rebuilt from the blocks before it: incremental update never
/// diverges from a full rebuild.
pub proof fn lemma_rebuild_matches_incremental(c: Seq<BlockV>, b: BlockV)
    ensures
        chain_utxo(c.push(b)) == (match chain_utxo(c) {
            Some(s) => block_fold(s, b),
            None => None,
        }),
{
    assert(c.push(b).drop_last() =~= c);
    assert(c.push(b).last() == b);
}

} // verus!
