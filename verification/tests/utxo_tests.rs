use rust_blockchain::{
    Blockchain, BlockchainError, Transaction, TxInput, TxOutput, UTXOSet,
};

fn pkh(tag: u8) -> Vec<u8> {
    vec![tag; 20]
}

/// A chain whose genesis coinbase pays address tag 1 the value 10, and a
/// second block that spends 6 to tag 2 with 4 in change back to tag 1.
fn spend_scenario() -> (Blockchain, Vec<u8>, Vec<u8>) {
    let coinbase = Transaction::new_coinbase_tx(pkh(1), 10);
    let coinbase_id = coinbase.get_id().to_vec();
    let mut chain = Blockchain::create_genesis(&coinbase, 1_700_000_000).unwrap();
    let spend = Transaction::new(
        vec![TxInput::new(coinbase_id.clone(), 0, Vec::new(), Vec::new())],
        vec![TxOutput::new(6, pkh(2)), TxOutput::new(4, pkh(1))],
    );
    let spend_id = spend.get_id().to_vec();
    chain.append(&[spend], 1_700_000_001).unwrap();
    (chain, coinbase_id, spend_id)
}

#[test]
fn test_genesis_balance() {
    let coinbase = Transaction::new_coinbase_tx(pkh(1), 10);
    let chain = Blockchain::create_genesis(&coinbase, 1_700_000_000).unwrap();
    let mut utxo = UTXOSet::new();
    utxo.rebuild(&chain).unwrap();
    assert_eq!(utxo.get_balance(&pkh(1)), 10);
    assert_eq!(utxo.count_distinct_transactions(), 1);
}

#[test]
fn test_spend_updates_balances() {
    let (chain, _, _) = spend_scenario();
    let mut utxo = UTXOSet::new();
    utxo.rebuild(&chain).unwrap();
    assert_eq!(utxo.get_balance(&pkh(1)), 4);
    assert_eq!(utxo.get_balance(&pkh(2)), 6);
    // The total unspent value is conserved.
    assert_eq!(utxo.get_balance(&pkh(1)) + utxo.get_balance(&pkh(2)), 10);
    assert_eq!(utxo.count_distinct_transactions(), 1);
}

#[test]
fn test_rebuild_equals_incremental_fold() {
    let (chain, _, _) = spend_scenario();

    let mut rebuilt = UTXOSet::new();
    rebuilt.rebuild(&chain).unwrap();

    let mut folded = UTXOSet::new();
    for h in 0..=chain.get_best_height() {
        let block = chain.get_block_by_height(h).unwrap().clone_block();
        folded.fold(&block).unwrap();
    }

    assert_eq!(rebuilt.count_distinct_transactions(), folded.count_distinct_transactions());
    for tag in 0..4u8 {
        assert_eq!(rebuilt.get_balance(&pkh(tag)), folded.get_balance(&pkh(tag)));
        let a = rebuilt.find_by_owner(&pkh(tag));
        let b = folded.find_by_owner(&pkh(tag));
        assert_eq!(a.len(), b.len());
        for (x, y) in a.iter().zip(b.iter()) {
            assert_eq!(x.txid, y.txid);
            assert_eq!(x.index, y.index);
            assert_eq!(x.output.value, y.output.value);
            assert_eq!(x.output.pub_key_hash, y.output.pub_key_hash);
        }
    }
}

#[test]
fn test_spent_output_never_returned_again() {
    let (chain, coinbase_id, spend_id) = spend_scenario();
    let mut utxo = UTXOSet::new();
    utxo.rebuild(&chain).unwrap();
    // Output 0 of the coinbase was spent: no owner sees it any more.
    for tag in 0..4u8 {
        for owned in utxo.find_by_owner(&pkh(tag)) {
            assert!(!(owned.txid == coinbase_id && owned.index == 0));
            assert_eq!(owned.txid, spend_id);
        }
    }
}

#[test]
fn test_select_spendable_covers_the_amount() {
    let (chain, _, _) = spend_scenario();
    let mut utxo = UTXOSet::new();
    utxo.rebuild(&chain).unwrap();

    let (selected, total) = utxo.select_spendable(&pkh(1), 3).unwrap();
    assert!(total >= 3);
    assert!(!selected.is_empty());
    for o in &selected {
        assert_eq!(o.output.pub_key_hash, pkh(1));
    }

    let (exact, exact_total) = utxo.select_spendable(&pkh(2), 6).unwrap();
    assert_eq!(exact_total, 6);
    assert_eq!(exact.len(), 1);

    let (none_needed, zero) = utxo.select_spendable(&pkh(2), 0).unwrap();
    assert!(none_needed.is_empty());
    assert_eq!(zero, 0);
}

#[test]
fn test_select_spendable_reports_shortfalls() {
    let (chain, _, _) = spend_scenario();
    let mut utxo = UTXOSet::new();
    utxo.rebuild(&chain).unwrap();

    let poor = utxo.select_spendable(&pkh(1), 100);
    assert!(matches!(poor, Err(BlockchainError::InsufficientFunds)));

    let unknown = utxo.select_spendable(&pkh(9), 1);
    assert!(matches!(unknown, Err(BlockchainError::NotFoundError(_))));
}

#[test]
fn test_fold_rejects_unresolved_reference() {
    let coinbase = Transaction::new_coinbase_tx(pkh(1), 10);
    let mut chain = Blockchain::create_genesis(&coinbase, 1_700_000_000).unwrap();
    let bogus = Transaction::new(
        vec![TxInput::new(vec![0xde, 0xad], 7, Vec::new(), Vec::new())],
        vec![TxOutput::new(1, pkh(3))],
    );
    let block = chain.append(&[bogus], 1_700_000_001).unwrap();

    let mut utxo = UTXOSet::new();
    let genesis = chain.get_block_by_height(0).unwrap().clone_block();
    utxo.fold(&genesis).unwrap();
    let balance_before = utxo.get_balance(&pkh(1));
    let result = utxo.fold(&block);
    assert!(matches!(result, Err(BlockchainError::ValidationError(_))));
    assert_eq!(utxo.get_balance(&pkh(1)), balance_before);
}

#[test]
fn test_rebuild_after_more_blocks() {
    let (mut chain, _, spend_id) = spend_scenario();
    let next = Transaction::new(
        vec![TxInput::new(spend_id.clone(), 1, Vec::new(), Vec::new())],
        vec![TxOutput::new(4, pkh(3))],
    );
    chain.append(&[next], 1_700_000_002).unwrap();
    let mut utxo = UTXOSet::new();
    utxo.rebuild(&chain).unwrap();
    assert_eq!(utxo.get_balance(&pkh(1)), 0);
    assert_eq!(utxo.get_balance(&pkh(2)), 6);
    assert_eq!(utxo.get_balance(&pkh(3)), 4);
}
