//! Error kinds shared across the ledger components.
//!
//! Component-local failures (a bad nonce, a block that does not extend the
//! tip, an unresolved output reference) are reported through these variants
//! and recovered at the component boundary; storage and configuration
//! failures are surfaced to the caller.

use vstd::prelude::*;

verus! {

/// The error kinds of the library.
///
/// `ValidationError` covers consensus failures (a sealed block that fails
/// validation, a block that extends the wrong tip, an unresolved output
/// reference), `MiningExhausted` the exhaustion of the nonce space during
/// sealing, and `InsufficientFunds` a spendable-output selection that cannot
/// reach the requested amount.
#[derive(Debug)]
pub enum BlockchainError {
    DatabaseError(String),
    DeserializationError(String),
    NetworkError(String),
    WalletError(String),
    InvalidTransaction(String),
    NotFoundError(String),
    ValidationError(String),
    MiningExhausted,
    InsufficientFunds,
}

} // verus!
