//! The sealer: a proof-of-work search over a nonce space against a fixed
//! difficulty target.
//!
//! The target is `2^(256 - TARGET_BITS)`. A nonce meets the target when the
//! SHA-256 digest of the block's sealing message, read as a big-endian
//! 256-bit integer, lies strictly below the target. `run` searches nonces
//! from zero upward and returns the first that meets the target, or reports
//! exhaustion; `validate` recomputes the digest from the block's own fields
//! and a claimed nonce, never trusting the stored hash.

use vstd::prelude::*;
use vstd::arithmetic::power2::{pow2, lemma_pow2_adds, lemma_pow2_pos, lemma2_to64};
use vstd::utf8::encode_utf8;
use crate::block::{Block, BlockV, ids_concat};
use crate::error::BlockchainError;
use crate::utils::{
    sha256_of, sha256_digest, hex_of, hex_encode, i64_be_bytes, i64_to_be_bytes, i32_be_bytes,
    i32_to_be_bytes, push_bytes,
};

verus! {

/// The fixed difficulty: how many leading bits of the digest must be zero.
pub const TARGET_BITS: i32 = 8;

/// The exclusive upper bound of the nonce search.
pub const MAX_NONCE: i64 = i64::MAX;

/// A byte sequence read as a big-endian unsigned integer.
pub open spec fn be_uint(s: Seq<u8>) -> nat
    decreases s.len(),
{
    if s.len() == 0 {
        0
    } else {
        be_uint(s.drop_last()) * 256 + (s.last() as nat)
    }
}

/// The sealing message for `b` under `nonce`: previous-hash bytes, the
/// digest of the concatenated transaction ids, then timestamp, difficulty
/// and nonce, each big-endian.
pub open spec fn pow_message(b: BlockV, nonce: i64) -> Seq<u8> {
    encode_utf8(b.pre_block_hash) + sha256_of(ids_concat(b.transactions))
        + i64_be_bytes(b.timestamp) + i32_be_bytes(TARGET_BITS) + i64_be_bytes(nonce)
}

/// Whether `nonce` seals `b`: the digest of the sealing message, as a
/// big-endian integer, lies strictly below `2^(256 - TARGET_BITS)`.
pub open spec fn meets_target(b: BlockV, nonce: i64) -> bool {
    be_uint(sha256_of(pow_message(b, nonce))) < pow2((256 - TARGET_BITS) as nat)
}

/// A sealed block: its own nonce meets the target and its stored hash is
/// the lowercase hex of the sealing digest.
pub open spec fn sealed(b: BlockV) -> bool {
    &&& meets_target(b, b.nonce)
    &&& b.hash == hex_of(sha256_of(pow_message(b, b.nonce)))
}

/// A big-endian integer is below `2^(8 n)` for `n` bytes.
pub proof fn lemma_be_uint_bound(s: Seq<u8>)
    ensures
        be_uint(s) < pow2(8 * s.len()),
    decreases s.len(),
{
    if s.len() == 0 {
        lemma_pow2_pos(0);
    } else {
        let t = s.drop_last();
        lemma_be_uint_bound(t);
        lemma_pow2_adds(8 * t.len(), 8);
        lemma2_to64();
        let p = pow2(8 * t.len());
        assert(be_uint(t) * 256 + s.last() < p * 256) by (nonlinear_arith)
            requires
                be_uint(t) < p,
                s.last() < 256,
        ;
    }
}

/// Splitting off the leading byte of a big-endian integer.
pub proof fn lemma_be_uint_first(s: Seq<u8>)
    requires
        s.len() >= 1,
    ensures
        be_uint(s) == s[0] * pow2((8 * (s.len() - 1)) as nat) + be_uint(s.drop_first()),
    decreases s.len(),
{
    if s.len() == 1 {
        lemma2_to64();
        assert(s.drop_last().len() == 0);
        assert(be_uint(s.drop_last()) == 0);
        assert(be_uint(s) == s.last());
        assert(s.drop_first().len() == 0);
        assert(s[0] * pow2(0) == s[0] * 1);
    } else {
        let t = s.drop_last();
        let d = s.drop_first();
        lemma_be_uint_first(t);
        assert(t.drop_first() =~= d.drop_last());
        assert(t[0] == s[0]);
        assert(s.last() == d.last());
        lemma_pow2_adds((8 * (t.len() - 1)) as nat, 8);
        lemma2_to64();
        let p = pow2((8 * (t.len() - 1)) as nat);
        assert((s[0] * p + be_uint(d.drop_last())) * 256 + d.last() == s[0] * (p * 256) + (
        be_uint(d.drop_last()) * 256 + d.last())) by (nonlinear_arith);
        assert(be_uint(s) == be_uint(t) * 256 + s.last());
        assert(be_uint(d) == be_uint(d.drop_last()) * 256 + d.last());
    }
}

/// Whether a 32-byte digest, read big-endian, lies below `2^248`.
fn digest_below_target(d: &[u8]) -> (r: bool)
    requires
        d@.len() == 32,
    ensures
        r == (be_uint(d@) < pow2(248)),
{
    proof {
        lemma_be_uint_first(d@);
        lemma_be_uint_bound(d@.drop_first());
        assert(8 * d@.drop_first().len() == 248);
        if d@[0] == 0 {
            assert(d@[0] * pow2(248) == 0) by (nonlinear_arith)
                requires
                    d@[0] == 0,
            ;
        } else {
            assert(d@[0] * pow2(248) >= pow2(248)) by (nonlinear_arith)
                requires
                    d@[0] >= 1,
                    pow2(248) > 0,
            ;
            lemma_pow2_pos(248);
        }
    }
    d[0] == 0
}

/// The proof-of-work engine over one candidate block.
pub struct ProofOfWork {
    pub block: Block,
}

impl ProofOfWork {
    /// Wraps a candidate block for sealing or validation.
    pub fn new_proof_of_work(block: Block) -> (r: ProofOfWork)
        ensures
            r.block@ == block@,
    {
        ProofOfWork { block }
    }

    /// The sealing message of the wrapped block under `nonce`.
    fn prepare_data(&self, nonce: i64) -> (r: Vec<u8>)
        ensures
            r@ == pow_message(self.block@, nonce),
    {
        let mut data: Vec<u8> = Vec::new();
        push_bytes(&mut data, self.block.pre_block_hash.as_str().as_bytes());
        let tx_hash = self.block.hash_transactions();
        push_bytes(&mut data, tx_hash.as_slice());
        let ts = i64_to_be_bytes(self.block.timestamp);
        push_bytes(&mut data, ts.as_slice());
        let bits = i32_to_be_bytes(TARGET_BITS);
        push_bytes(&mut data, bits.as_slice());
        let n = i64_to_be_bytes(nonce);
        push_bytes(&mut data, n.as_slice());
        proof {
            assert(data@ =~= pow_message(self.block@, nonce));
        }
        data
    }

    /// Searches nonces from zero upward; returns the first that meets the
    /// target together with the hex digest, or reports exhaustion of the
    /// nonce space.
    pub fn run(&self) -> (r: Result<(i64, String), BlockchainError>)
        ensures
            match r {
                Ok((nonce, hash)) => {
                    &&& 0 <= nonce < MAX_NONCE
                    &&& meets_target(self.block@, nonce)
                    &&& forall|m: i64| 0 <= m < nonce ==> !meets_target(self.block@, m)
                    &&& hash@ == hex_of(sha256_of(pow_message(self.block@, nonce)))
                },
                Err(e) => {
                    &&& e is MiningExhausted
                    &&& forall|m: i64| 0 <= m < MAX_NONCE ==> !meets_target(self.block@, m)
                },
            },
    {
        let mut nonce: i64 = 0;
        while nonce < MAX_NONCE
            invariant
                0 <= nonce <= MAX_NONCE,
                forall|m: i64| 0 <= m < nonce ==> !meets_target(self.block@, m),
            decreases MAX_NONCE - nonce,
        {
            let data = self.prepare_data(nonce);
            let hash = sha256_digest(data.as_slice());
            if digest_below_target(hash.as_slice()) {
                let hex = hex_encode(hash.as_slice());
                return Ok((nonce, hex));
            }
            nonce = nonce + 1;
        }
        Err(BlockchainError::MiningExhausted)
    }

    /// Recomputes the sealing digest of the wrapped block under a claimed
    /// nonce and checks it against the target; the stored hash plays no
    /// part.
    pub fn validate(&self, nonce: i64) -> (r: bool)
        ensures
            r == meets_target(self.block@, nonce),
    {
        let data = self.prepare_data(nonce);
        let hash = sha256_digest(data.as_slice());
        digest_below_target(hash.as_slice())
    }
}

/// Whether `block` is sealed: its own nonce meets the target and its
/// stored hash equals the hex digest of its sealing message.
pub fn is_sealed(block: &Block) -> (r: bool)
    ensures
        r == sealed(block@),
{
    let pow = ProofOfWork::new_proof_of_work(block.clone_block());
    let data = pow.prepare_data(block.nonce);
    let digest = sha256_digest(data.as_slice());
    let meets = digest_below_target(digest.as_slice());
    let hex = crate::utils::hex_encode(digest.as_slice());
    let hash_ok = crate::utils::str_eq(hex.as_str(), block.hash.as_str());
    meets && hash_ok
}

/// Every sealed block passes re-validation with its own nonce: the sealing
/// digest, read as a big-endian integer, lies strictly below the target.
pub proof fn lemma_sealed_block_validates(b: BlockV)
    requires
        sealed(b),
    ensures
        meets_target(b, b.nonce),
        be_uint(sha256_of(pow_message(b, b.nonce))) < pow2((256 - TARGET_BITS) as nat),
{
}

} // verus!
