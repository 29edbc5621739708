use rust_blockchain::{
    admit_transaction, handle_message, mine_block, Blockchain, MemoryPool, Message, Nodes,
    Transaction, TxInput, TxOutput, UTXOSet,
};

fn pkh(tag: u8) -> Vec<u8> {
    vec![tag; 20]
}

#[test]
fn test_pool_submit_contains_remove() {
    let mut pool = MemoryPool::new();
    let tx = Transaction::new_coinbase_tx(pkh(1), 5);
    let id = tx.get_id().to_vec();
    assert!(!pool.contains(&id));
    pool.submit(tx.clone_tx());
    assert!(pool.contains(&id));
    assert_eq!(pool.len(), 1);
    // Submitting the same transaction again is a no-op.
    pool.submit(tx);
    assert_eq!(pool.len(), 1);
    pool.remove(&id);
    assert!(!pool.contains(&id));
    assert_eq!(pool.len(), 0);
    // Removing an absent id is a no-op.
    pool.remove(&id);
    assert_eq!(pool.len(), 0);
}

#[test]
fn test_pool_snapshot() {
    let mut pool = MemoryPool::new();
    pool.submit(Transaction::new_coinbase_tx(pkh(1), 5));
    pool.submit(Transaction::new_coinbase_tx(pkh(2), 7));
    let snap = pool.snapshot();
    assert_eq!(snap.len(), 2);
    assert_eq!(snap[0].vout[0].value, 5);
    assert_eq!(snap[1].vout[0].value, 7);
}

#[test]
fn test_admit_transaction_checks_pool_and_index() {
    let coinbase = Transaction::new_coinbase_tx(pkh(1), 10);
    let coinbase_id = coinbase.get_id().to_vec();
    let chain = Blockchain::create_genesis(&coinbase, 1_700_000_000).unwrap();
    let mut utxo = UTXOSet::new();
    utxo.rebuild(&chain).unwrap();
    let mut pool = MemoryPool::new();

    let spend = Transaction::new(
        vec![TxInput::new(coinbase_id.clone(), 0, Vec::new(), Vec::new())],
        vec![TxOutput::new(10, pkh(2))],
    );
    assert!(admit_transaction(&mut pool, &utxo, spend.clone_tx()));
    // Already buffered: dropped.
    assert!(!admit_transaction(&mut pool, &utxo, spend));

    let bogus = Transaction::new(
        vec![TxInput::new(vec![1, 2, 3], 0, Vec::new(), Vec::new())],
        vec![TxOutput::new(1, pkh(2))],
    );
    assert!(!admit_transaction(&mut pool, &utxo, bogus));
    assert_eq!(pool.len(), 1);
}

#[test]
fn test_mine_block_folds_and_clears_pool() {
    let coinbase = Transaction::new_coinbase_tx(pkh(1), 10);
    let coinbase_id = coinbase.get_id().to_vec();
    let mut chain = Blockchain::create_genesis(&coinbase, 1_700_000_000).unwrap();
    let mut utxo = UTXOSet::new();
    utxo.rebuild(&chain).unwrap();
    let mut pool = MemoryPool::new();

    let spend = Transaction::new(
        vec![TxInput::new(coinbase_id, 0, Vec::new(), Vec::new())],
        vec![TxOutput::new(6, pkh(2)), TxOutput::new(4, pkh(1))],
    );
    let spend_id = spend.get_id().to_vec();
    pool.submit(spend.clone_tx());

    let reward = Transaction::new_coinbase_tx(pkh(3), 1);
    let block = mine_block(&mut chain, &mut utxo, &mut pool, &[spend, reward], 1_700_000_001)
        .unwrap();
    assert_eq!(block.get_height(), 1);
    assert_eq!(chain.get_best_height(), 1);
    assert!(!pool.contains(&spend_id));
    assert_eq!(utxo.get_balance(&pkh(1)), 4);
    assert_eq!(utxo.get_balance(&pkh(2)), 6);
    assert_eq!(utxo.get_balance(&pkh(3)), 1);
}

#[test]
fn test_mine_block_rejects_unfoldable_transactions() {
    let coinbase = Transaction::new_coinbase_tx(pkh(1), 10);
    let mut chain = Blockchain::create_genesis(&coinbase, 1_700_000_000).unwrap();
    let mut utxo = UTXOSet::new();
    utxo.rebuild(&chain).unwrap();
    let mut pool = MemoryPool::new();

    let bogus = Transaction::new(
        vec![TxInput::new(vec![9, 9], 0, Vec::new(), Vec::new())],
        vec![TxOutput::new(1, pkh(2))],
    );
    let height_before = chain.get_best_height();
    assert!(mine_block(&mut chain, &mut utxo, &mut pool, &[bogus], 1_700_000_001).is_err());
    assert_eq!(chain.get_best_height(), height_before);
}

#[test]
fn test_nodes_registry() {
    let mut nodes = Nodes::new();
    assert_eq!(nodes.len(), 0);
    assert!(nodes.first().is_none());

    nodes.add_node("127.0.0.1:2001".to_string());
    nodes.add_node("127.0.0.1:2002".to_string());
    // A known address is not registered twice.
    nodes.add_node("127.0.0.1:2001".to_string());
    assert_eq!(nodes.len(), 2);
    assert!(nodes.node_is_known("127.0.0.1:2001"));
    assert!(!nodes.node_is_known("127.0.0.1:9999"));
    assert_eq!(nodes.first().unwrap().get_addr(), "127.0.0.1:2001");
    assert_eq!(nodes.get_nodes().len(), 2);

    nodes.evict_node("127.0.0.1:2001");
    assert_eq!(nodes.len(), 1);
    assert!(!nodes.node_is_known("127.0.0.1:2001"));
    // Evicting an unknown address is a no-op.
    nodes.evict_node("127.0.0.1:2001");
    assert_eq!(nodes.len(), 1);
    assert_eq!(nodes.first().unwrap().get_addr(), "127.0.0.1:2002");
}

#[test]
fn test_transaction_identity() {
    let a = Transaction::new_coinbase_tx(pkh(1), 10);
    let b = Transaction::new_coinbase_tx(pkh(1), 10);
    let c = Transaction::new_coinbase_tx(pkh(2), 10);
    // The id is a content digest: equal content, equal id.
    assert_eq!(a.get_id(), b.get_id());
    assert_ne!(a.get_id(), c.get_id());
    assert!(a.is_coinbase());
    let spend = Transaction::new(
        vec![TxInput::new(a.get_id().to_vec(), 0, Vec::new(), Vec::new())],
        vec![TxOutput::new(10, pkh(2))],
    );
    assert!(!spend.is_coinbase());
    assert_eq!(spend.get_id().len(), 32);
}

#[test]
fn test_handle_message_drives_sync() {
    let mut tall = Blockchain::create_genesis(&Transaction::new_coinbase_tx(pkh(1), 10), 1_700_000_000).unwrap();
    tall.append(&[Transaction::new_coinbase_tx(pkh(2), 10)], 1_700_000_001).unwrap();
    let mut tall_utxo = UTXOSet::new();
    tall_utxo.rebuild(&tall).unwrap();
    let mut tall_pool = MemoryPool::new();

    let genesis = tall.get_block_by_height(0).unwrap().clone_block();
    let mut short = Blockchain::from_blocks(vec![genesis]).unwrap();
    let mut short_utxo = UTXOSet::new();
    short_utxo.rebuild(&short).unwrap();
    let mut short_pool = MemoryPool::new();

    // The short peer announces its version; the tall peer answers with an
    // inventory of one missing hash.
    let version = Message::Version { best_height: 0, tip_hash: short.get_tip_hash() };
    let replies = handle_message(&mut tall, &mut tall_utxo, &mut tall_pool, &version);
    assert_eq!(replies.len(), 1);
    let inventory = &replies[0];
    let requests = handle_message(&mut short, &mut short_utxo, &mut short_pool, inventory);
    assert_eq!(requests.len(), 1);

    // The data request is answered with the block, which the short peer
    // adopts; both peers then stand at the same tip.
    let data = handle_message(&mut tall, &mut tall_utxo, &mut tall_pool, &requests[0]);
    assert_eq!(data.len(), 1);
    let none = handle_message(&mut short, &mut short_utxo, &mut short_pool, &data[0]);
    assert!(none.is_empty());
    assert_eq!(short.get_best_height(), 1);
    assert_eq!(short.get_tip_hash(), tall.get_tip_hash());

    // A replayed block no longer extends the tip and is dropped.
    handle_message(&mut short, &mut short_utxo, &mut short_pool, &data[0]);
    assert_eq!(short.get_best_height(), 1);

    // An in-sync version announcement needs no reply.
    let synced = Message::Version { best_height: 1, tip_hash: tall.get_tip_hash() };
    assert!(handle_message(&mut tall, &mut tall_utxo, &mut tall_pool, &synced).is_empty());
}
