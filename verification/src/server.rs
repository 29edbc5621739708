//! Peer synchronization: the message kinds exchanged with peers and the
//! decisions that drive block exchange and mining.
//!
//! The functions here are the decision core of the synchronization
//! service: the embedding program moves the messages over the wire and
//! hands the payloads back. Height comparison picks the next step of the
//! handshake; blocks received from a taller peer are adopted one at a
//! time through `accept_external` and folded into the Unspent-Output
//! Index, keeping the index exactly consistent with the chain; mining
//! seals the pending transactions, folds the new block and clears the
//! pool of what was included.

use vstd::prelude::*;
use vstd::string::StringExecFns;
use crate::block::{Block, BlockV, candidate_block};
use crate::blockchain::{Blockchain, extends_chain};
use crate::error::BlockchainError;
use crate::memory_pool::{MemoryPool, pool_contains, pool_wf, lemma_remove_tx_subset, remove_tx};
use crate::proof_of_work::sealed;
use crate::transactions::{Transaction, TransactionV, txs_view};
use crate::utxo_set::{
    UTXOSet, UtxoEntryV, chain_utxo, block_fold, apply_txs, has_outpoint, utxo_wf,
    lemma_chain_utxo_wf, lemma_rebuild_matches_incremental,
};

verus! {

/// One message of the network surface.
pub enum Message {
    Version { best_height: usize, tip_hash: String },
    Inventory { block_hashes: Vec<String> },
    GetData { hash: String },
    BlockData { block: Block },
    TxData { transaction: Transaction },
}

/// The next step of a handshake after comparing tip heights.
pub enum SyncAction {
    SendInventory,
    SendVersion,
    InSync,
}

/// Compares tip heights: a taller node sends the inventory the peer is
/// missing, a shorter one announces its own version, equals are in sync.
pub fn plan_for_version(my_height: usize, their_height: usize) -> (r: SyncAction)
    ensures
        my_height > their_height <==> r is SendInventory,
        my_height < their_height <==> r is SendVersion,
        my_height == their_height <==> r is InSync,
{
    if my_height > their_height {
        SyncAction::SendInventory
    } else if my_height < their_height {
        SyncAction::SendVersion
    } else {
        SyncAction::InSync
    }
}

/// Whether every input of `t` references an outpoint the index holds
/// unspent.
pub open spec fn inputs_unspent(u: Seq<crate::utxo_set::UtxoEntryV>, t: TransactionV) -> bool {
    forall|k: int|
        0 <= k < t.vin.len() ==> has_outpoint(u, (#[trigger] t.vin[k]).txid, t.vin[k].vout)
}

/// Buffers a received transaction when it is not already known and all
/// of its inputs are still unspent per the index; otherwise drops it.
pub fn admit_transaction(pool: &mut MemoryPool, utxo: &UTXOSet, tx: Transaction) -> (r: bool)
    requires
        pool_wf(old(pool)@),
        utxo_wf(utxo@),
    ensures
        pool_wf(final(pool)@),
        r == (!pool_contains(old(pool)@, tx@.id) && inputs_unspent(utxo@, tx@)),
        r ==> final(pool)@ == old(pool)@.push(tx@),
        !r ==> final(pool)@ == old(pool)@,
{
    if pool.contains(tx.id.as_slice()) {
        return false;
    }
    let mut k: usize = 0;
    while k < tx.vin.len()
        invariant
            k <= tx.vin@.len(),
            tx@.vin.len() == tx.vin@.len(),
            utxo_wf(utxo@),
            pool@ == old(pool)@,
            pool_wf(old(pool)@),
            !pool_contains(old(pool)@, tx@.id),
            forall|j: int|
                0 <= j < k ==> has_outpoint(utxo@, (#[trigger] tx@.vin[j]).txid, tx@.vin[j].vout),
        decreases tx.vin@.len() - k,
    {
        let known = utxo.contains_outpoint(tx.vin[k].txid.as_slice(), tx.vin[k].vout);
        proof {
            assert(tx@.vin[k as int] == tx.vin@[k as int]@);
        }
        if !known {
            proof {
                assert(!has_outpoint(utxo@, tx@.vin[k as int].txid, tx@.vin[k as int].vout));
                assert(!inputs_unspent(utxo@, tx@));
            }
            return false;
        }
        k = k + 1;
    }
    proof {
        assert(inputs_unspent(utxo@, tx@));
    }
    pool.submit(tx);
    true
}

/// Whether every block of `bs`, in turn, directly extends the chain and
/// folds cleanly into the index.
pub open spec fn all_adoptable(c: Seq<BlockV>, u: Seq<UtxoEntryV>, bs: Seq<BlockV>) -> bool
    decreases bs.len(),
{
    if bs.len() == 0 {
        true
    } else {
        &&& extends_chain(c, bs[0])
        &&& block_fold(u, bs[0]) is Some
        &&& all_adoptable(c.push(bs[0]), block_fold(u, bs[0]).unwrap(), bs.drop_first())
    }
}

/// When every block of `bs` in turn is adoptable, the state after the
/// first `i` of them still extends with block `i`.
proof fn lemma_all_adoptable_at(c: Seq<BlockV>, u: Seq<UtxoEntryV>, bs: Seq<BlockV>, i: int)
    requires
        all_adoptable(c, u, bs),
        Some(u) == chain_utxo(c),
        0 <= i < bs.len(),
    ensures
        chain_utxo(c + bs.take(i)) is Some,
        extends_chain(c + bs.take(i), bs[i]),
        block_fold(chain_utxo(c + bs.take(i)).unwrap(), bs[i]) is Some,
    decreases i,
{
    if i == 0 {
        assert(c + bs.take(0) =~= c);
    } else {
        let c1 = c.push(bs[0]);
        let u1 = block_fold(u, bs[0]).unwrap();
        lemma_rebuild_matches_incremental(c, bs[0]);
        assert(Some(u1) == chain_utxo(c1));
        let rest = bs.drop_first();
        lemma_all_adoptable_at(c1, u1, rest, i - 1);
        assert(c1 + rest.take(i - 1) =~= c + bs.take(i));
        assert(rest[i - 1] == bs[i]);
    }
}

/// Adopts blocks received from a taller peer, lowest first: each must
/// directly extend the tip and fold cleanly into the index. On success
/// the chain carries exactly the given blocks on top of the old tip; a
/// rejected block stops the walk with the chain and index unchanged from
/// that point, and the error names the first block that neither extends
/// nor folds — so whenever every block in turn is adoptable, adoption
/// succeeds. The index stays consistent with the chain throughout.
#[verifier::rlimit(50)]
pub fn adopt_blocks(chain: &mut Blockchain, utxo: &mut UTXOSet, blocks: &[Block]) -> (r: Result<
    (),
    BlockchainError,
>)
    requires
        old(chain).wf(),
        Some(old(utxo)@) == chain_utxo(old(chain)@),
    ensures
        final(chain).wf(),
        Some(final(utxo)@) == chain_utxo(final(chain)@),
        match r {
            Ok(()) => final(chain)@ == old(chain)@ + crate::blockchain::blocks_view(blocks@),
            Err(e) => {
                &&& e is ValidationError
                &&& !all_adoptable(
                    old(chain)@,
                    old(utxo)@,
                    crate::blockchain::blocks_view(blocks@),
                )
                &&& exists|k: int|
                    {
                        &&& 0 <= k < blocks@.len()
                        &&& final(chain)@ == old(chain)@ + crate::blockchain::blocks_view(
                            blocks@,
                        ).take(k)
                        &&& !(extends_chain(
                            final(chain)@,
                            crate::blockchain::blocks_view(blocks@)[k],
                        ) && block_fold(
                            final(utxo)@,
                            crate::blockchain::blocks_view(blocks@)[k],
                        ) is Some)
                    }
            },
        },
{
    let ghost bs = crate::blockchain::blocks_view(blocks@);
    let mut i: usize = 0;
    while i < blocks.len()
        invariant
            i <= blocks@.len(),
            bs == crate::blockchain::blocks_view(blocks@),
            bs.len() == blocks@.len(),
            chain.wf(),
            Some(utxo@) == chain_utxo(chain@),
            Some(old(utxo)@) == chain_utxo(old(chain)@),
            chain@ == old(chain)@ + bs.take(i as int),
        decreases blocks@.len() - i,
    {
        let block = &blocks[i];
        proof {
            lemma_chain_utxo_wf(chain@);
        }
        if !utxo.can_fold(block) {
            proof {
                assert(0 <= i < blocks@.len() && chain@ == old(chain)@ + bs.take(i as int) && !(
                extends_chain(chain@, bs[i as int]) && block_fold(utxo@, bs[i as int]) is Some));
                assert(!all_adoptable(old(chain)@, old(utxo)@, bs)) by {
                    if all_adoptable(old(chain)@, old(utxo)@, bs) {
                        lemma_all_adoptable_at(old(chain)@, old(utxo)@, bs, i as int);
                    }
                };
            }
            return Err(BlockchainError::ValidationError(
                String::from_str("received block does not fold into the index"),
            ));
        }
        let ghost before = chain@;
        match chain.accept_external(block) {
            Ok(()) => {},
            Err(e) => {
                proof {
                    assert(0 <= i < blocks@.len() && chain@ == old(chain)@ + bs.take(i as int)
                        && !(extends_chain(chain@, bs[i as int]) && block_fold(utxo@, bs[i as int])
                        is Some));
                    assert(!all_adoptable(old(chain)@, old(utxo)@, bs)) by {
                        if all_adoptable(old(chain)@, old(utxo)@, bs) {
                            lemma_all_adoptable_at(old(chain)@, old(utxo)@, bs, i as int);
                        }
                    };
                }
                return Err(e);
            },
        }
        proof {
            lemma_rebuild_matches_incremental(before, block@);
            assert(before.push(block@) == chain@);
        }
        match utxo.fold(block) {
            Ok(()) => {},
            Err(_) => {
                proof {
                    assert(false);
                }
                return Err(BlockchainError::ValidationError(String::from_str("the checked fold cannot fail")));
            },
        }
        proof {
            assert(chain@ =~= old(chain)@ + bs.take(i + 1));
        }
        i = i + 1;
    }
    proof {
        assert(bs.take(bs.len() as int) =~= bs);
        assert(chain@ =~= old(chain)@ + bs);
    }
    Ok(())
}

/// Whether `m` is an inventory of exactly the hashes of `c` above
/// height `h`, lowest first.
pub open spec fn is_inventory_above(m: Message, c: Seq<crate::block::BlockV>, h: int) -> bool {
    match m {
        Message::Inventory { block_hashes } => {
            &&& block_hashes@.len() == c.len() - 1 - h
            &&& forall|i: int|
                0 <= i < block_hashes@.len() ==> (#[trigger] block_hashes@[i])@ == c[h + 1 + i].hash
        },
        _ => false,
    }
}

/// Whether `m` announces the tip of `c`.
pub open spec fn is_version_of(m: Message, c: Seq<crate::block::BlockV>) -> bool {
    match m {
        Message::Version { best_height, tip_hash } => {
            &&& best_height as int == c.len() - 1
            &&& tip_hash@ == c.last().hash
        },
        _ => false,
    }
}

/// Whether `m` requests the data of `hash`.
pub open spec fn is_get_data_for(m: Message, hash: Seq<char>) -> bool {
    match m {
        Message::GetData { hash: h } => h@ == hash,
        _ => false,
    }
}

/// Whether `m` carries a block whose hash is `hash`.
pub open spec fn is_block_data_for(m: Message, hash: Seq<char>) -> bool {
    match m {
        Message::BlockData { block } => block@.hash == hash,
        _ => false,
    }
}

/// Handles one received message and returns the replies to send back,
/// driving the handshake and block-exchange flow: a version
/// announcement is answered by an inventory of missing hashes or by our
/// own version; an inventory is answered by one data request per hash; a
/// data request is answered with the block, when known; a received block
/// is adopted when, and only when, it directly extends the tip and folds
/// into the index, and is otherwise dropped; a received transaction is
/// buffered when new and still spendable, and otherwise dropped. The
/// index stays consistent with the chain throughout.
pub fn handle_message(
    chain: &mut Blockchain,
    utxo: &mut UTXOSet,
    pool: &mut MemoryPool,
    msg: &Message,
) -> (r: Vec<Message>)
    requires
        old(chain).wf(),
        Some(old(utxo)@) == chain_utxo(old(chain)@),
        pool_wf(old(pool)@),
    ensures
        final(chain).wf(),
        Some(final(utxo)@) == chain_utxo(final(chain)@),
        pool_wf(final(pool)@),
        match msg {
            Message::Version { best_height, tip_hash: _ } => {
                &&& final(chain)@ == old(chain)@
                &&& final(pool)@ == old(pool)@
                &&& (old(chain)@.len() - 1 > *best_height as int ==> r@.len() == 1
                    && is_inventory_above(r@[0], old(chain)@, *best_height as int))
                &&& (old(chain)@.len() - 1 < *best_height as int ==> r@.len() == 1
                    && is_version_of(r@[0], old(chain)@))
                &&& (old(chain)@.len() - 1 == *best_height as int ==> r@.len() == 0)
            },
            Message::Inventory { block_hashes } => {
                &&& final(chain)@ == old(chain)@
                &&& final(pool)@ == old(pool)@
                &&& r@.len() == block_hashes@.len()
                &&& forall|i: int|
                    0 <= i < r@.len() ==> is_get_data_for(#[trigger] r@[i], block_hashes@[i]@)
            },
            Message::GetData { hash } => {
                &&& final(chain)@ == old(chain)@
                &&& final(pool)@ == old(pool)@
                &&& r@.len() <= 1
                &&& (forall|i: int|
                    0 <= i < old(chain)@.len() ==> (#[trigger] old(chain)@[i]).hash != hash@)
                    ==> r@.len() == 0
                &&& (exists|i: int|
                    0 <= i < old(chain)@.len() && (#[trigger] old(chain)@[i]).hash == hash@)
                    ==> r@.len() == 1
                &&& r@.len() == 1 ==> is_block_data_for(r@[0], hash@)
            },
            Message::BlockData { block } => {
                &&& final(pool)@ == old(pool)@
                &&& r@.len() == 0
                &&& (extends_chain(old(chain)@, block@) && block_fold(old(utxo)@, block@) is Some)
                    ==> final(chain)@ == old(chain)@.push(block@)
                &&& !extends_chain(old(chain)@, block@) ==> final(chain)@ == old(chain)@
            },
            Message::TxData { transaction } => {
                &&& final(chain)@ == old(chain)@
                &&& r@.len() == 0
                &&& (!pool_contains(old(pool)@, transaction@.id) && inputs_unspent(
                    old(utxo)@,
                    transaction@,
                ) ==> final(pool)@ == old(pool)@.push(transaction@))
                &&& (!(!pool_contains(old(pool)@, transaction@.id) && inputs_unspent(
                    old(utxo)@,
                    transaction@,
                )) ==> final(pool)@ == old(pool)@)
            },
        },
{
    match msg {
        Message::Version { best_height, tip_hash: _ } => {
            let my_height = chain.get_best_height();
            match plan_for_version(my_height, *best_height) {
                SyncAction::SendInventory => {
                    let block_hashes = chain.hashes_above(*best_height);
                    vec![Message::Inventory { block_hashes }]
                },
                SyncAction::SendVersion => {
                    let tip_hash = chain.get_tip_hash();
                    vec![Message::Version { best_height: my_height, tip_hash }]
                },
                SyncAction::InSync => Vec::new(),
            }
        },
        Message::Inventory { block_hashes } => {
            let mut replies: Vec<Message> = Vec::new();
            let mut i: usize = 0;
            while i < block_hashes.len()
                invariant
                    i <= block_hashes@.len(),
                    replies@.len() == i,
                    forall|j: int|
                        0 <= j < i ==> is_get_data_for(#[trigger] replies@[j], block_hashes@[j]@),
                decreases block_hashes@.len() - i,
            {
                let hash = block_hashes[i].clone();
                replies.push(Message::GetData { hash });
                i = i + 1;
            }
            replies
        },
        Message::GetData { hash } => {
            match chain.get_block(hash.as_str()) {
                Some(b) => {
                    let block = b.clone_block();
                    vec![Message::BlockData { block }]
                },
                None => Vec::new(),
            }
        },
        Message::BlockData { block } => {
            if utxo.can_fold(block) {
                let ghost before = chain@;
                match chain.accept_external(block) {
                    Ok(()) => {
                        proof {
                            lemma_rebuild_matches_incremental(before, block@);
                            assert(before.push(block@) == chain@);
                            lemma_chain_utxo_wf(before);
                        }
                        match utxo.fold(block) {
                            Ok(()) => {},
                            Err(_) => {
                                proof {
                                    assert(false);
                                }
                            },
                        }
                    },
                    Err(_) => {},
                }
            }
            Vec::new()
        },
        Message::TxData { transaction } => {
            proof {
                lemma_chain_utxo_wf(chain@);
            }
            admit_transaction(pool, utxo, transaction.clone_tx());
            Vec::new()
        },
    }
}

/// Seals the given transactions into a new block, appends it, folds it
/// into the index and drops the included transactions from the pool.
/// Fails — leaving chain, index and pool unchanged — when a transaction
/// does not fold or the nonce space is exhausted.
pub fn mine_block(
    chain: &mut Blockchain,
    utxo: &mut UTXOSet,
    pool: &mut MemoryPool,
    transactions: &[Transaction],
    timestamp: i64,
) -> (r: Result<Block, BlockchainError>)
    requires
        old(chain).wf(),
        Some(old(utxo)@) == chain_utxo(old(chain)@),
        pool_wf(old(pool)@),
        transactions@.len() > 0,
    ensures
        final(chain).wf(),
        Some(final(utxo)@) == chain_utxo(final(chain)@),
        pool_wf(final(pool)@),
        match r {
            Ok(b) => {
                &&& final(chain)@ == old(chain)@.push(b@)
                &&& b@.transactions == txs_view(transactions@)
                &&& b@.timestamp == timestamp
                &&& sealed(b@)
                &&& forall|k: int|
                    0 <= k < transactions@.len() ==> !pool_contains(
                        final(pool)@,
                        (#[trigger] txs_view(transactions@)[k]).id,
                    )
            },
            Err(e) => {
                &&& (e is ValidationError || e is MiningExhausted)
                &&& (e is ValidationError <==> apply_txs(old(utxo)@, txs_view(transactions@))
                    is None)
                &&& (e is MiningExhausted ==> forall|m: i64|
                    0 <= m < crate::proof_of_work::MAX_NONCE ==> !crate::proof_of_work::meets_target(
                        candidate_block(
                            old(chain)@.last().hash,
                            txs_view(transactions@),
                            timestamp,
                            old(chain)@.len() as int,
                        ),
                        m,
                    ))
                &&& final(chain)@ == old(chain)@
                &&& final(utxo)@ == old(utxo)@
                &&& final(pool)@ == old(pool)@
            },
        },
{
    if !utxo.can_apply(transactions) {
        return Err(BlockchainError::ValidationError(
            String::from_str("pending transactions do not fold into the index"),
        ));
    }
    let ghost before = chain@;
    let block = match chain.append(transactions, timestamp) {
        Ok(b) => b,
        Err(e) => {
            return Err(e);
        },
    };
    proof {
        lemma_rebuild_matches_incremental(before, block@);
        assert(before.push(block@) == chain@);
        assert(block_fold(utxo@, block@) == apply_txs(utxo@, txs_view(transactions@)));
        lemma_chain_utxo_wf(before);
    }
    match utxo.fold(&block) {
        Ok(()) => {},
        Err(_) => {
            proof {
                assert(false);
            }
            return Err(BlockchainError::ValidationError(String::from_str("the checked fold cannot fail")));
        },
    }
    let ghost txs = txs_view(transactions@);
    let mut k: usize = 0;
    while k < transactions.len()
        invariant
            k <= transactions@.len(),
            txs == txs_view(transactions@),
            txs.len() == transactions@.len(),
            pool_wf(pool@),
            forall|j: int| 0 <= j < k ==> !pool_contains(pool@, (#[trigger] txs[j]).id),
        decreases transactions@.len() - k,
    {
        let ghost pool_before = pool@;
        pool.remove(transactions[k].id.as_slice());
        proof {
            assert(pool@ == remove_tx(pool_before, txs[k as int].id));
            lemma_remove_tx_subset(pool_before, txs[k as int].id);
            assert forall|j: int| 0 <= j < k + 1 implies !pool_contains(
                pool@,
                (#[trigger] txs[j]).id,
            ) by {
                if j < k {
                    if pool_contains(pool@, txs[j].id) {
                        assert(pool_contains(pool_before, txs[j].id));
                    }
                }
            };
        }
        k = k + 1;
    }
    Ok(block)
}

} // verus!
