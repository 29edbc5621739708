//! The ledger: an ordered, hash-linked sequence of sealed blocks with a
//! single tip.
//!
//! Well-formedness ties the whole chain together: block `i` sits at height
//! `i`, carries the hash of block `i - 1` as its previous hash, holds at
//! least one transaction and is sealed; the genesis block carries the
//! sentinel previous hash. Appends — locally mined or received from a peer
//! — are the only mutations, so following previous-hash links from the tip
//! reaches genesis in exactly `height + 1` steps.

use vstd::prelude::*;
use vstd::string::StringExecFns;
use crate::block::{Block, BlockV, candidate_block};
use crate::error::BlockchainError;
use crate::proof_of_work::{sealed, is_sealed};
use crate::transactions::{Transaction, txs_view};
use crate::utils::str_eq;

verus! {

/// The values of a sequence of blocks.
pub open spec fn blocks_view(s: Seq<Block>) -> Seq<BlockV> {
    s.map_values(|b: Block| b@)
}

/// A well-formed chain: non-empty, genesis first, consecutive heights,
/// hash-linked, every block non-empty and sealed.
pub open spec fn chain_wf(c: Seq<BlockV>) -> bool {
    &&& c.len() >= 1
    &&& c[0].pre_block_hash == "None"@
    &&& forall|i: int| 0 <= i < c.len() ==> (#[trigger] c[i]).height == i
    &&& forall|i: int| 0 < i < c.len() ==> (#[trigger] c[i]).pre_block_hash == c[i - 1].hash
    &&& forall|i: int| 0 <= i < c.len() ==> (#[trigger] c[i]).transactions.len() > 0
    &&& forall|i: int| 0 <= i < c.len() ==> sealed(#[trigger] c[i])
}

/// Whether `b` directly extends the chain `c`: it points at the tip's
/// hash, sits one above the tip's height, is non-empty and sealed.
pub open spec fn extends_chain(c: Seq<BlockV>, b: BlockV) -> bool {
    &&& b.pre_block_hash == c.last().hash
    &&& b.height == c.len()
    &&& b.transactions.len() > 0
    &&& sealed(b)
}

/// The ledger: blocks ordered by height; the last block is the tip.
pub struct Blockchain {
    pub blocks: Vec<Block>,
}

impl View for Blockchain {
    type V = Seq<BlockV>;

    open spec fn view(&self) -> Seq<BlockV> {
        blocks_view(self.blocks@)
    }
}

impl Blockchain {
    /// Chain well-formedness; established by the constructors and kept by
    /// every mutation.
    pub open spec fn wf(&self) -> bool {
        chain_wf(self@)
    }

    /// Builds the chain holding only the sealed genesis block that carries
    /// `coinbase` alone. Reports exhaustion when sealing fails.
    pub fn create_genesis(coinbase: &Transaction, timestamp: i64) -> (r: Result<
        Blockchain,
        BlockchainError,
    >)
        ensures
            match r {
                Ok(c) => {
                    &&& c.wf()
                    &&& c@.len() == 1
                    &&& c@[0].transactions =~= seq![coinbase@]
                    &&& c@[0].timestamp == timestamp
                },
                Err(e) => {
                    &&& e is MiningExhausted
                    &&& forall|m: i64|
                        0 <= m < crate::proof_of_work::MAX_NONCE ==> !crate::proof_of_work::meets_target(
                            candidate_block("None"@, seq![coinbase@], timestamp, 0),
                            m,
                        )
                },
            },
    {
        let genesis = match Block::generate_genesis_block(coinbase, timestamp) {
            Ok(b) => b,
            Err(e) => {
                return Err(e);
            },
        };
        let mut blocks: Vec<Block> = Vec::new();
        blocks.push(genesis);
        let chain = Blockchain { blocks };
        proof {
            assert(chain@.len() == 1);
            assert(chain@[0] == genesis@);
        }
        Ok(chain)
    }

    /// The tip: the most recently appended block.
    pub fn tip(&self) -> (r: &Block)
        requires
            self.wf(),
        ensures
            r@ == self@.last(),
    {
        let n = self.blocks.len();
        &self.blocks[n - 1]
    }

    /// The height of the tip.
    pub fn get_best_height(&self) -> (r: usize)
        requires
            self.wf(),
        ensures
            r as int == self@.last().height,
            r as int == self@.len() - 1,
    {
        let n = self.blocks.len();
        let r = self.blocks[n - 1].get_height();
        proof {
            assert(self@[n - 1].height == n - 1);
        }
        r
    }

    /// The hash of the tip.
    pub fn get_tip_hash(&self) -> (r: String)
        requires
            self.wf(),
        ensures
            r@ == self@.last().hash,
    {
        let n = self.blocks.len();
        self.blocks[n - 1].get_hash().to_owned()
    }

    /// Seals a new block over `transactions` at the next height and
    /// appends it. Reports exhaustion when sealing fails; the chain is
    /// then unchanged.
    pub fn append(&mut self, transactions: &[Transaction], timestamp: i64) -> (r: Result<
        Block,
        BlockchainError,
    >)
        requires
            old(self).wf(),
            transactions@.len() > 0,
        ensures
            final(self).wf(),
            match r {
                Ok(b) => {
                    &&& final(self)@ == old(self)@.push(b@)
                    &&& b@.height == old(self)@.len()
                    &&& b@.pre_block_hash == old(self)@.last().hash
                    &&& b@.transactions == txs_view(transactions@)
                    &&& b@.timestamp == timestamp
                    &&& sealed(b@)
                    &&& extends_chain(old(self)@, b@)
                },
                Err(e) => {
                    &&& e is MiningExhausted
                    &&& final(self)@ == old(self)@
                    &&& forall|m: i64|
                        0 <= m < crate::proof_of_work::MAX_NONCE ==> !crate::proof_of_work::meets_target(
                            candidate_block(
                                old(self)@.last().hash,
                                txs_view(transactions@),
                                timestamp,
                                old(self)@.len() as int,
                            ),
                            m,
                        )
                },
            },
    {
        let pre = self.get_tip_hash();
        let height = self.blocks.len();
        let block = match Block::new_block(pre, transactions, height, timestamp) {
            Ok(b) => b,
            Err(e) => {
                return Err(e);
            },
        };
        let stored = block.clone_block();
        self.blocks.push(stored);
        proof {
            assert(self@ =~= old(self)@.push(block@));
            assert forall|i: int| 0 <= i < self@.len() implies (#[trigger] self@[i]).height == i by {
                if i < old(self)@.len() {
                    assert(old(self)@[i].height == i);
                }
            };
            assert(chain_wf(self@));
        }
        Ok(block)
    }

    /// Accepts a block received from a peer when, and only when, it
    /// directly extends the current tip: right previous hash, right
    /// height, non-empty, and sealed under re-validation. A rejected
    /// block leaves the chain unchanged.
    pub fn accept_external(&mut self, block: &Block) -> (r: Result<(), BlockchainError>)
        requires
            old(self).wf(),
        ensures
            final(self).wf(),
            match r {
                Ok(()) => {
                    &&& extends_chain(old(self)@, block@)
                    &&& final(self)@ == old(self)@.push(block@)
                },
                Err(e) => {
                    &&& e is ValidationError
                    &&& !extends_chain(old(self)@, block@)
                    &&& final(self)@ == old(self)@
                },
            },
    {
        let n = self.blocks.len();
        let tip_ok = str_eq(block.pre_block_hash.as_str(), self.blocks[n - 1].get_hash());
        if !tip_ok {
            return Err(BlockchainError::ValidationError(
                String::from_str("block does not extend the current tip"),
            ));
        }
        if block.height != n {
            return Err(BlockchainError::ValidationError(
                String::from_str("block height does not follow the tip"),
            ));
        }
        if block.transactions.len() == 0 {
            return Err(BlockchainError::ValidationError(
                String::from_str("block carries no transactions"),
            ));
        }
        if !is_sealed(block) {
            return Err(BlockchainError::ValidationError(
                String::from_str("proof of work does not meet the target"),
            ));
        }
        let stored = block.clone_block();
        self.blocks.push(stored);
        proof {
            assert(self@ =~= old(self)@.push(block@));
            assert forall|i: int| 0 <= i < self@.len() implies (#[trigger] self@[i]).height == i by {
                if i < old(self)@.len() {
                    assert(old(self)@[i].height == i);
                }
            };
            assert(chain_wf(self@));
        }
        Ok(())
    }

    /// Looks a block up by its hash; `None` when no block carries it.
    pub fn get_block(&self, hash: &str) -> (r: Option<&Block>)
        ensures
            match r {
                Some(b) => b@.hash == hash@ && exists|i: int|
                    0 <= i < self@.len() && #[trigger] self@[i] == b@,
                None => forall|i: int| 0 <= i < self@.len() ==> (#[trigger] self@[i]).hash != hash@,
            },
    {
        let mut i: usize = 0;
        while i < self.blocks.len()
            invariant
                i <= self@.len(),
                self@.len() == self.blocks@.len(),
                forall|j: int| 0 <= j < i ==> (#[trigger] self@[j]).hash != hash@,
            decreases self@.len() - i,
        {
            if str_eq(self.blocks[i].get_hash(), hash) {
                proof {
                    assert(self@[i as int] == self.blocks@[i as int]@);
                }
                return Some(&self.blocks[i]);
            }
            i = i + 1;
        }
        None
    }

    /// Looks a block up by its height.
    pub fn get_block_by_height(&self, height: usize) -> (r: Option<&Block>)
        ensures
            match r {
                Some(b) => height < self@.len() && b@ == self@[height as int],
                None => height >= self@.len(),
            },
    {
        if height < self.blocks.len() {
            Some(&self.blocks[height])
        } else {
            None
        }
    }

    /// Starts a backward walk over the chain as it stands now.
    pub fn iterate(&self) -> (r: BlockchainIterator<'_>)
        ensures
            r.chain@ == self@,
            r.remaining == self@.len(),
    {
        BlockchainIterator { chain: self, remaining: self.blocks.len() }
    }

    /// The blocks from the tip back to genesis. The walk terminates and
    /// its length is exactly `tip.height + 1`.
    pub fn collect_from_tip(&self) -> (r: Vec<Block>)
        requires
            self.wf(),
        ensures
            r@.len() == self@.len(),
            r@.len() == self@.last().height + 1,
            forall|i: int| 0 <= i < r@.len() ==> (#[trigger] r@[i])@ == self@[self@.len() - 1 - i],
    {
        let mut out: Vec<Block> = Vec::new();
        let mut it = self.iterate();
        while it.remaining > 0
            invariant
                it.chain@ == self@,
                it.remaining <= self@.len(),
                out@.len() == self@.len() - it.remaining,
                forall|i: int|
                    0 <= i < out@.len() ==> (#[trigger] out@[i])@ == self@[self@.len() - 1 - i],
            ensures
                it.remaining == 0,
                out@.len() == self@.len(),
                forall|i: int|
                    0 <= i < out@.len() ==> (#[trigger] out@[i])@ == self@[self@.len() - 1 - i],
            decreases it.remaining,
        {
            match it.next() {
                Some(b) => {
                    out.push(b.clone_block());
                },
                None => {
                    proof {
                        assert(false);
                    }
                    break;
                },
            }
        }
        proof {
            assert(self@[self@.len() - 1] == self@.last());
            assert(self@.last().height == self@.len() - 1);
        }
        out
    }

    /// The hashes of the blocks strictly above `height`, lowest first:
    /// the inventory a peer at that height is missing.
    pub fn hashes_above(&self, height: usize) -> (r: Vec<String>)
        requires
            self.wf(),
        ensures
            height < self@.len() ==> r@.len() == self@.len() - 1 - height,
            height >= self@.len() ==> r@.len() == 0,
            forall|i: int|
                0 <= i < r@.len() ==> (#[trigger] r@[i])@ == self@[height + 1 + i].hash,
    {
        let mut out: Vec<String> = Vec::new();
        if height >= self.blocks.len() {
            return out;
        }
        let mut h: usize = height + 1;
        while h < self.blocks.len()
            invariant
                height + 1 <= h <= self@.len(),
                self@.len() == self.blocks@.len(),
                out@.len() == h - height - 1,
                forall|i: int|
                    0 <= i < out@.len() ==> (#[trigger] out@[i])@ == self@[height + 1 + i].hash,
            decreases self@.len() - h,
        {
            out.push(self.blocks[h].get_hash().to_owned());
            h = h + 1;
        }
        out
    }

    /// Rebuilds a chain from stored blocks, re-validating every link and
    /// seal; accepts exactly the well-formed chains.
    pub fn from_blocks(blocks: Vec<Block>) -> (r: Result<Blockchain, BlockchainError>)
        ensures
            match r {
                Ok(c) => c@ == blocks_view(blocks@) && c.wf(),
                Err(e) => {
                    &&& e is ValidationError
                    &&& !chain_wf(blocks_view(blocks@))
                },
            },
    {
        let ghost target = blocks_view(blocks@);
        if blocks.len() == 0 {
            return Err(BlockchainError::ValidationError(
                String::from_str("no blocks to rebuild from"),
            ));
        }
        let genesis_ok = str_eq(blocks[0].pre_block_hash.as_str(), "None") && blocks[0].height
            == 0 && blocks[0].transactions.len() > 0 && is_sealed(&blocks[0]);
        if !genesis_ok {
            return Err(BlockchainError::ValidationError(
                String::from_str("stored genesis block is not valid"),
            ));
        }
        let mut chain_blocks: Vec<Block> = Vec::new();
        chain_blocks.push(blocks[0].clone_block());
        let mut chain = Blockchain { blocks: chain_blocks };
        proof {
            assert(chain@ =~= target.take(1));
            assert(chain_wf(chain@));
        }
        let mut i: usize = 1;
        while i < blocks.len()
            invariant
                1 <= i <= blocks@.len(),
                target == blocks_view(blocks@),
                target.len() == blocks@.len(),
                chain@ == target.take(i as int),
                chain.wf(),
            decreases blocks@.len() - i,
    {
            match chain.accept_external(&blocks[i]) {
                Ok(()) => {},
                Err(e) => {
                    proof {
                        assert(!extends_chain(target.take(i as int), target[i as int]));
                        assert(!chain_wf(target)) by {
                            if chain_wf(target) {
                                assert(target.take(i as int).len() == i);
                                assert(target.take(i as int).last() == target[i - 1]);
                                assert(target[i as int].height == i);
                                assert(target[i as int].pre_block_hash == target[i - 1].hash);
                                assert(target[i as int].transactions.len() > 0);
                                assert(sealed(target[i as int]));
                            }
                        };
                    }
                    return Err(e);
                },
            }
            proof {
                assert(chain@ =~= target.take(i + 1));
            }
            i = i + 1;
        }
        proof {
            assert(target.take(blocks@.len() as int) =~= target);
        }
        Ok(chain)
    }
}

/// Every block of a well-formed chain is sealed, so re-validation with
/// its own nonce succeeds on each of them.
pub proof fn lemma_chain_blocks_validate(c: Seq<BlockV>)
    requires
        chain_wf(c),
    ensures
        forall|i: int|
            0 <= i < c.len() ==> crate::proof_of_work::meets_target(
                #[trigger] c[i],
                c[i].nonce,
            ),
{
}

/// A backward walk over a chain: from the tip down to genesis.
pub struct BlockchainIterator<'a> {
    pub chain: &'a Blockchain,
    pub remaining: usize,
}

impl<'a> BlockchainIterator<'a> {
    /// The next block going backward, or `None` once genesis has been
    /// yielded.
    pub fn next(&mut self) -> (r: Option<&'a Block>)
        requires
            old(self).remaining <= old(self).chain@.len(),
        ensures
            final(self).chain@ == old(self).chain@,
            match r {
                Some(b) => {
                    &&& old(self).remaining > 0
                    &&& final(self).remaining == old(self).remaining - 1
                    &&& b@ == final(self).chain@[old(self).remaining - 1]
                },
                None => {
                    &&& old(self).remaining == 0
                    &&& final(self).remaining == 0
                },
            },
    {
        if self.remaining == 0 {
            return None;
        }
        self.remaining = self.remaining - 1;
        Some(&self.chain.blocks[self.remaining])
    }
}

} // verus!
