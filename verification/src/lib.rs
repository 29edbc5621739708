//! A single-node proof-of-work ledger core.
//!
//! The library seals blocks against a fixed difficulty target, keeps the
//! hash-linked chain, derives the index of unspent transaction outputs,
//! buffers pending transactions, tracks peers and drives the block-exchange
//! decisions of peer synchronization. Network and disk access live outside
//! the library; the cryptographic primitives are consumed through thin
//! trusted wrappers.

mod error;
pub use error::BlockchainError;

pub mod utils;

mod transactions;
pub use transactions::{Transaction, TxInput, TxOutput};

mod block;
pub use block::Block;

mod proof_of_work;
pub use proof_of_work::ProofOfWork;

mod blockchain;
pub use blockchain::{Blockchain, BlockchainIterator};

mod utxo_set;
pub use utxo_set::{UTXOSet, UtxoEntry, IndexedOutput, OwnedOutput};

mod memory_pool;
pub use memory_pool::MemoryPool;

mod node;
pub use node::{Node, Nodes};

mod wallet;
pub use wallet::{Wallet, hash_pub_key, checksum, validate_address, convert_address, ADDRESS_CHECK_SUM_LEN};

mod wallets;
pub use wallets::Wallets;

mod server;
pub use server::{Message, SyncAction, plan_for_version, admit_transaction, adopt_blocks, handle_message, mine_block};
