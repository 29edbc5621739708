//! Blocks: immutable records of one sealed step of the chain.
//!
//! A block's `hash` is reproducible as a pure function of its other fields
//! and the difficulty parameter; it is set only by sealing or checked
//! recomputation. The genesis block sits at height 0 and carries the
//! sentinel previous hash `"None"`.

use vstd::prelude::*;
use vstd::string::{StringExecFns, StringSliceAdditionalSpecFns};
use crate::error::BlockchainError;
use crate::proof_of_work::{ProofOfWork, sealed, meets_target, pow_message, MAX_NONCE};
use crate::transactions::{Transaction, TransactionV, txs_view, clone_txs};
use crate::utils::{sha256_of, sha256_digest, push_bytes, clone_bytes};

verus! {

/// One sealed step of the chain.
pub struct Block {
    pub timestamp: i64,
    pub pre_block_hash: String,
    pub hash: String,
    pub transactions: Vec<Transaction>,
    pub nonce: i64,
    pub height: usize,
}

/// The mathematical value of a `Block`.
pub ghost struct BlockV {
    pub timestamp: i64,
    pub pre_block_hash: Seq<char>,
    pub hash: Seq<char>,
    pub transactions: Seq<TransactionV>,
    pub nonce: i64,
    pub height: int,
}

impl View for Block {
    type V = BlockV;

    open spec fn view(&self) -> BlockV {
        BlockV {
            timestamp: self.timestamp,
            pre_block_hash: self.pre_block_hash@,
            hash: self.hash@,
            transactions: txs_view(self.transactions@),
            nonce: self.nonce,
            height: self.height as int,
        }
    }
}

/// The candidate a sealing attempt works on; the stored hash and nonce
/// play no part in the sealing message, so they stand empty here.
pub open spec fn candidate_block(
    pre: Seq<char>,
    txs: Seq<TransactionV>,
    timestamp: i64,
    height: int,
) -> BlockV {
    BlockV {
        timestamp,
        pre_block_hash: pre,
        hash: Seq::empty(),
        transactions: txs,
        nonce: 0,
        height,
    }
}

/// The concatenation of the ids of `txs`, in order.
pub open spec fn ids_concat(txs: Seq<TransactionV>) -> Seq<u8>
    decreases txs.len(),
{
    if txs.len() == 0 {
        Seq::empty()
    } else {
        ids_concat(txs.drop_last()) + txs.last().id
    }
}

impl Block {
    /// Builds a candidate at the given position and seals it: the returned
    /// block carries the first nonce that meets the target and the hex
    /// digest of its sealing message. Reports exhaustion when no nonce
    /// below the search bound meets the target.
    pub fn new_block(
        pre_block_hash: String,
        transactions: &[Transaction],
        height: usize,
        timestamp: i64,
    ) -> (r: Result<Block, BlockchainError>)
        requires
            transactions@.len() > 0,
        ensures
            match r {
                Ok(b) => {
                    &&& b@.timestamp == timestamp
                    &&& b@.pre_block_hash == pre_block_hash@
                    &&& b@.transactions == txs_view(transactions@)
                    &&& b@.height == height as int
                    &&& sealed(b@)
                    &&& forall|m: i64| 0 <= m < b@.nonce ==> !meets_target(b@, m)
                },
                Err(e) => {
                    &&& e is MiningExhausted
                    &&& forall|m: i64|
                        0 <= m < MAX_NONCE ==> !meets_target(
                            candidate_block(
                                pre_block_hash@,
                                txs_view(transactions@),
                                timestamp,
                                height as int,
                            ),
                            m,
                        )
                },
            },
    {
        let block = Block {
            timestamp,
            pre_block_hash,
            hash: String::new(),
            transactions: clone_txs(transactions),
            nonce: 0,
            height,
        };
        let pow = ProofOfWork::new_proof_of_work(block);
        let (nonce, hash) = match pow.run() {
            Ok(p) => p,
            Err(e) => {
                proof {
                    let cand = candidate_block(
                        pre_block_hash@,
                        txs_view(transactions@),
                        timestamp,
                        height as int,
                    );
                    assert(pow.block@ == cand);
                }
                return Err(e);
            },
        };
        let mut block = pow.block;
        block.nonce = nonce;
        block.hash = hash;
        proof {
            let bf = block@;
            let b0 = pow.block@;
            assert forall|m: i64| pow_message(bf, m) == pow_message(b0, m) by {
                assert(bf.pre_block_hash == b0.pre_block_hash);
                assert(bf.transactions == b0.transactions);
                assert(bf.timestamp == b0.timestamp);
            };
            assert forall|m: i64| 0 <= m < nonce implies !meets_target(bf, m) by {
                assert(!meets_target(b0, m));
                assert(pow_message(bf, m) == pow_message(b0, m));
            };
            assert(meets_target(bf, nonce)) by {
                assert(pow_message(bf, nonce) == pow_message(b0, nonce));
            };
        }
        Ok(block)
    }

    /// Builds and seals the height-0 block: the sentinel previous hash and
    /// the single given transaction.
    pub fn generate_genesis_block(transaction: &Transaction, timestamp: i64) -> (r: Result<
        Block,
        BlockchainError,
    >)
        ensures
            match r {
                Ok(b) => {
                    &&& b@.timestamp == timestamp
                    &&& b@.pre_block_hash == "None"@
                    &&& b@.transactions =~= seq![transaction@]
                    &&& b@.height == 0
                    &&& sealed(b@)
                },
                Err(e) => {
                    &&& e is MiningExhausted
                    &&& forall|m: i64|
                        0 <= m < MAX_NONCE ==> !meets_target(
                            candidate_block("None"@, seq![transaction@], timestamp, 0),
                            m,
                        )
                },
            },
    {
        let mut transactions: Vec<Transaction> = Vec::new();
        transactions.push(transaction.clone_tx());
        proof {
            assert(txs_view(transactions@) =~= seq![transaction@]);
        }
        Block::new_block(String::from_str("None"), transactions.as_slice(), 0, timestamp)
    }

    /// The digest of the concatenated ids of this block's transactions.
    pub fn hash_transactions(&self) -> (r: Vec<u8>)
        ensures
            r@ == sha256_of(ids_concat(self@.transactions)),
            r@.len() == 32,
    {
        let mut txhashs: Vec<u8> = Vec::new();
        let ghost txs = txs_view(self.transactions@);
        let mut i: usize = 0;
        while i < self.transactions.len()
            invariant
                i <= self.transactions@.len(),
                txs == txs_view(self.transactions@),
                txhashs@ == ids_concat(txs.take(i as int)),
            decreases self.transactions@.len() - i,
        {
            push_bytes(&mut txhashs, self.transactions[i].get_id());
            proof {
                assert(txs.take(i + 1).drop_last() =~= txs.take(i as int));
                assert(txs.take(i + 1).last() == txs[i as int]);
            }
            i = i + 1;
        }
        proof {
            assert(txs.take(txs.len() as int) =~= txs);
        }
        sha256_digest(txhashs.as_slice())
    }

    /// The block's transactions, in order.
    pub fn get_transactions(&self) -> (r: &[Transaction])
        ensures
            r@ == self.transactions@,
            txs_view(r@) == self@.transactions,
    {
        self.transactions.as_slice()
    }

    /// The hash of the predecessor block.
    pub fn get_pre_block_hash(&self) -> (r: String)
        ensures
            r@ == self@.pre_block_hash,
    {
        self.pre_block_hash.clone()
    }

    /// The block's own hash.
    pub fn get_hash(&self) -> (r: &str)
        ensures
            r@ == self@.hash,
    {
        self.hash.as_str()
    }

    /// The bytes of the block's own hash.
    pub fn get_hash_bytes(&self) -> (r: Vec<u8>)
        ensures
            r@ == vstd::utf8::encode_utf8(self@.hash),
    {
        clone_bytes(self.hash.as_str().as_bytes())
    }

    /// The creation instant recorded in the block.
    pub fn get_timestamp(&self) -> (r: i64)
        ensures
            r == self@.timestamp,
    {
        self.timestamp
    }

    /// The block's distance from genesis.
    pub fn get_height(&self) -> (r: usize)
        ensures
            r as int == self@.height,
    {
        self.height
    }

    /// A copy of this block.
    pub fn clone_block(&self) -> (r: Block)
        ensures
            r@ == self@,
    {
        Block {
            timestamp: self.timestamp,
            pre_block_hash: self.pre_block_hash.clone(),
            hash: self.hash.clone(),
            transactions: clone_txs(self.transactions.as_slice()),
            nonce: self.nonce,
            height: self.height,
        }
    }
}

} // verus!
