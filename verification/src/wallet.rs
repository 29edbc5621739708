//! Wallets and addresses.
//!
//! An address is the base58 encoding of a version byte, the public-key
//! hash (SHA-256 then RIPEMD-160), and a four-byte checksum (two rounds of
//! SHA-256 over the versioned payload). Key generation and the digests are
//! consumed as opaque primitives; the assembly and validation of the
//! payload is verified.

use vstd::prelude::*;
use crate::error::BlockchainError;
use crate::utils::{
    sha256_of, ripemd160_of, base58_of, base58_decoded, public_key_of, sha256_digest,
    ripemd160_digest, base58_encode, base58_decode, new_key_pair, public_key_from_pkcs8, bytes_eq,
    clone_bytes, push_bytes,
};
use vstd::slice::slice_subrange;
use vstd::string::StringExecFns;

verus! {

/// The version byte every address payload starts with.
pub const VERSION: u8 = 0x00;

/// The length of an address checksum, in bytes.
pub const ADDRESS_CHECK_SUM_LEN: usize = 4;

/// The checksum of a payload: the first four bytes of its double SHA-256
/// digest.
pub open spec fn checksum_of(payload: Seq<u8>) -> Seq<u8> {
    sha256_of(sha256_of(payload)).take(ADDRESS_CHECK_SUM_LEN as int)
}

/// The public-key hash: RIPEMD-160 of SHA-256.
pub open spec fn hash_pub_key_of(pub_key: Seq<u8>) -> Seq<u8> {
    ripemd160_of(sha256_of(pub_key))
}

/// The payload behind an address: version byte, public-key hash,
/// checksum.
pub open spec fn address_payload(pub_key_hash: Seq<u8>) -> Seq<u8> {
    (seq![VERSION] + pub_key_hash) + checksum_of(seq![VERSION] + pub_key_hash)
}

/// The address for a public-key hash.
pub open spec fn address_of_pkh(pub_key_hash: Seq<u8>) -> Seq<char> {
    base58_of(address_payload(pub_key_hash))
}

/// A valid address: it decodes, is long enough, and its stored checksum
/// equals the checksum recomputed over the rest of the payload.
pub open spec fn addr_valid(s: Seq<char>) -> bool {
    match base58_decoded(s) {
        Some(p) => p.len() > ADDRESS_CHECK_SUM_LEN && p.subrange(
            p.len() - ADDRESS_CHECK_SUM_LEN,
            p.len() as int,
        ) == checksum_of(p.take(p.len() - ADDRESS_CHECK_SUM_LEN)),
        None => false,
    }
}

/// The four-byte checksum of a payload.
pub fn checksum(payload: &[u8]) -> (r: Vec<u8>)
    ensures
        r@ == checksum_of(payload@),
        r@.len() == ADDRESS_CHECK_SUM_LEN,
{
    let first_sha = sha256_digest(payload);
    let second_sha = sha256_digest(first_sha.as_slice());
    let r = clone_bytes(slice_subrange(second_sha.as_slice(), 0, ADDRESS_CHECK_SUM_LEN));
    proof {
        assert(r@ =~= checksum_of(payload@));
    }
    r
}

/// The public-key hash used to lock outputs: RIPEMD-160 of SHA-256.
pub fn hash_pub_key(pub_key: &[u8]) -> (r: Vec<u8>)
    ensures
        r@ == hash_pub_key_of(pub_key@),
        r@.len() == 20,
{
    let pub_key_sha256 = sha256_digest(pub_key);
    ripemd160_digest(pub_key_sha256.as_slice())
}

/// Decodes an address, recomputes its checksum and compares; a string
/// that does not decode, or is too short, is invalid.
pub fn validate_address(address: &str) -> (r: bool)
    ensures
        r == addr_valid(address@),
{
    let payload = match base58_decode(address) {
        Some(p) => p,
        None => {
            return false;
        },
    };
    if payload.len() <= ADDRESS_CHECK_SUM_LEN {
        return false;
    }
    let split = payload.len() - ADDRESS_CHECK_SUM_LEN;
    let actual_checksum = slice_subrange(payload.as_slice(), split, payload.len());
    let target_vec = slice_subrange(payload.as_slice(), 0, split);
    let target_checksum = checksum(target_vec);
    let r = bytes_eq(actual_checksum, target_checksum.as_slice());
    proof {
        assert(payload@.take(split as int) =~= payload@.subrange(0, split as int));
    }
    r
}

/// Builds the address for a public-key hash; the result always
/// validates.
pub fn convert_address(pub_hash_key: &[u8]) -> (r: String)
    ensures
        r@ == address_of_pkh(pub_hash_key@),
        addr_valid(r@),
{
    let mut payload: Vec<u8> = Vec::new();
    payload.push(VERSION);
    push_bytes(&mut payload, pub_hash_key);
    proof {
        assert(payload@ =~= seq![VERSION] + pub_hash_key@);
    }
    let ck = checksum(payload.as_slice());
    let ghost versioned = payload@;
    push_bytes(&mut payload, ck.as_slice());
    proof {
        assert(payload@ =~= address_payload(pub_hash_key@));
    }
    let r = base58_encode(payload.as_slice());
    proof {
        let p = payload@;
        assert(p.len() == versioned.len() + 4);
        assert(p.subrange(p.len() - 4, p.len() as int) =~= checksum_of(versioned));
        assert(p.take(p.len() - 4) =~= versioned);
    }
    r
}

/// A wallet: a PKCS#8 key document and the public key it carries.
pub struct Wallet {
    pub pkcs8: Vec<u8>,
    pub public_key: Vec<u8>,
}

impl Wallet {
    /// Generates a fresh ECDSA P-256 key pair. On success the stored
    /// public key is the one carried by the stored key document.
    pub fn new() -> (r: Result<Wallet, BlockchainError>)
        ensures
            match r {
                Ok(w) => {
                    &&& w.public_key@ == public_key_of(w.pkcs8@)
                    &&& w.public_key@.len() == 65
                    &&& w.pkcs8@.len() > 0
                },
                Err(e) => e is WalletError,
            },
    {
        let pkcs8 = match new_key_pair() {
            Some(p) => p,
            None => {
                return Err(BlockchainError::WalletError(
                    String::from_str("key pair generation failed"),
                ));
            },
        };
        let public_key = match public_key_from_pkcs8(pkcs8.as_slice()) {
            Some(pk) => pk,
            None => {
                return Err(BlockchainError::WalletError(
                    String::from_str("generated key document was rejected"),
                ));
            },
        };
        Ok(Wallet { pkcs8, public_key })
    }

    /// Rebuilds a wallet from stored parts.
    pub fn from_parts(pkcs8: Vec<u8>, public_key: Vec<u8>) -> (r: Wallet)
        ensures
            r.pkcs8@ == pkcs8@,
            r.public_key@ == public_key@,
    {
        Wallet { pkcs8, public_key }
    }

    /// The wallet's address: version byte, public-key hash and checksum,
    /// base58-encoded. The result always validates.
    pub fn get_address(&self) -> (r: String)
        ensures
            r@ == address_of_pkh(hash_pub_key_of(self.public_key@)),
            addr_valid(r@),
    {
        let pub_key_hash = hash_pub_key(self.public_key.as_slice());
        convert_address(pub_key_hash.as_slice())
    }

    /// The stored public key.
    pub fn get_public_key(&self) -> (r: &[u8])
        ensures
            r@ == self.public_key@,
    {
        self.public_key.as_slice()
    }

    /// The stored PKCS#8 key document.
    pub fn get_pkcs8(&self) -> (r: &[u8])
        ensures
            r@ == self.pkcs8@,
    {
        self.pkcs8.as_slice()
    }

    /// A copy of this wallet.
    pub fn clone_wallet(&self) -> (r: Wallet)
        ensures
            r.pkcs8@ == self.pkcs8@,
            r.public_key@ == self.public_key@,
    {
        Wallet {
            pkcs8: clone_bytes(self.pkcs8.as_slice()),
            public_key: clone_bytes(self.public_key.as_slice()),
        }
    }
}

} // verus!
