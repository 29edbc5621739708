use rust_blockchain::{
    adopt_blocks, plan_for_version, Blockchain, BlockchainError, ProofOfWork, SyncAction,
    Transaction, UTXOSet,
};

fn pkh(tag: u8) -> Vec<u8> {
    vec![tag; 20]
}

fn coinbase(tag: u8, value: u64) -> Transaction {
    Transaction::new_coinbase_tx(pkh(tag), value)
}

/// A chain of `n` blocks: a genesis coinbase plus `n - 1` appended blocks,
/// each carrying one fresh coinbase.
fn build_chain(n: u8) -> Blockchain {
    let mut chain = Blockchain::create_genesis(&coinbase(0, 10), 1_700_000_000).unwrap();
    for k in 1..n {
        chain.append(&[coinbase(k, 10)], 1_700_000_000 + k as i64).unwrap();
    }
    chain
}

#[test]
fn test_sealed_block_validates() {
    let chain = build_chain(1);
    let genesis = chain.get_block_by_height(0).unwrap();
    let hash = genesis.get_hash().to_string();
    assert_eq!(hash.len(), 64);
    assert!(hash.starts_with("00"));
    let nonce = genesis.nonce;
    let pow = ProofOfWork::new_proof_of_work(genesis.clone_block());
    assert!(pow.validate(nonce));
    if nonce > 0 {
        // The sealer returns the first fitting nonce, so the one before
        // it cannot meet the target.
        assert!(!pow.validate(nonce - 1));
    }
}

#[test]
fn test_iteration_length_equals_height_plus_one() {
    let chain = build_chain(4);
    assert_eq!(chain.get_best_height(), 3);
    let walked = chain.collect_from_tip();
    assert_eq!(walked.len(), 4);
    assert_eq!(walked[0].get_hash(), chain.get_tip_hash());
    assert_eq!(walked[3].get_height(), 0);

    let mut it = chain.iterate();
    let mut count = 0;
    let mut last_height = usize::MAX;
    while let Some(b) = it.next() {
        assert!(b.get_height() < last_height || count == 0);
        last_height = b.get_height();
        count += 1;
    }
    assert_eq!(count, chain.get_best_height() + 1);
}

#[test]
fn test_get_block_by_hash_and_height() {
    let chain = build_chain(3);
    let tip_hash = chain.get_tip_hash();
    let found = chain.get_block(&tip_hash).expect("tip must be found");
    assert_eq!(found.get_height(), 2);
    assert!(chain.get_block("no such hash").is_none());
    assert!(chain.get_block_by_height(9).is_none());
    assert_eq!(
        chain.get_block_by_height(1).unwrap().get_pre_block_hash(),
        chain.get_block_by_height(0).unwrap().get_hash().to_string()
    );
}

#[test]
fn test_accept_external_rejects_wrong_previous_hash() {
    let mut chain_a = build_chain(1);
    // A different genesis: the foreign block extends the wrong tip.
    let mut chain_b = Blockchain::create_genesis(&coinbase(5, 10), 1_700_000_000).unwrap();
    chain_b.append(&[coinbase(6, 10)], 1_700_000_001).unwrap();
    let foreign = chain_b.get_block_by_height(1).unwrap().clone_block();
    let tip_before = chain_a.get_tip_hash();
    let height_before = chain_a.get_best_height();
    let result = chain_a.accept_external(&foreign);
    assert!(matches!(result, Err(BlockchainError::ValidationError(_))));
    assert_eq!(chain_a.get_tip_hash(), tip_before);
    assert_eq!(chain_a.get_best_height(), height_before);
}

#[test]
fn test_accept_external_accepts_direct_extension() {
    let chain_b = build_chain(2);
    let genesis = chain_b.get_block_by_height(0).unwrap().clone_block();
    let next = chain_b.get_block_by_height(1).unwrap().clone_block();
    let mut chain_a = Blockchain::from_blocks(vec![genesis]).unwrap();
    chain_a.accept_external(&next).unwrap();
    assert_eq!(chain_a.get_best_height(), 1);
    assert_eq!(chain_a.get_tip_hash(), chain_b.get_tip_hash());
}

#[test]
fn test_from_blocks_validates_the_chain() {
    let chain = build_chain(3);
    let blocks: Vec<_> =
        (0..3).map(|h| chain.get_block_by_height(h).unwrap().clone_block()).collect();
    let rebuilt = Blockchain::from_blocks(blocks).unwrap();
    assert_eq!(rebuilt.get_tip_hash(), chain.get_tip_hash());

    let mut reordered: Vec<_> =
        (0..3).map(|h| chain.get_block_by_height(h).unwrap().clone_block()).collect();
    reordered.swap(1, 2);
    assert!(Blockchain::from_blocks(reordered).is_err());
    assert!(Blockchain::from_blocks(Vec::new()).is_err());
}

#[test]
fn test_peers_synchronize_to_the_taller_chain() {
    // One peer stands at height 7, the other at height 3 with the same
    // prefix; after the exchange the shorter peer reaches the same tip.
    let tall = build_chain(8);
    assert_eq!(tall.get_best_height(), 7);
    let prefix: Vec<_> =
        (0..4).map(|h| tall.get_block_by_height(h).unwrap().clone_block()).collect();
    let mut short = Blockchain::from_blocks(prefix).unwrap();
    assert_eq!(short.get_best_height(), 3);

    assert!(matches!(plan_for_version(3, 7), SyncAction::SendVersion));
    assert!(matches!(plan_for_version(7, 3), SyncAction::SendInventory));
    assert!(matches!(plan_for_version(5, 5), SyncAction::InSync));

    let inventory = tall.hashes_above(short.get_best_height());
    assert_eq!(inventory.len(), 4);
    let mut missing = Vec::new();
    for hash in &inventory {
        missing.push(tall.get_block(hash).unwrap().clone_block());
    }

    let mut short_utxo = UTXOSet::new();
    short_utxo.rebuild(&short).unwrap();
    adopt_blocks(&mut short, &mut short_utxo, &missing).unwrap();
    assert_eq!(short.get_best_height(), 7);
    assert_eq!(short.get_tip_hash(), tall.get_tip_hash());
}

#[test]
fn test_append_links_blocks() {
    let mut chain = build_chain(1);
    let tip_before = chain.get_tip_hash();
    let block = chain.append(&[coinbase(9, 5)], 1_700_000_100).unwrap();
    assert_eq!(block.get_pre_block_hash(), tip_before);
    assert_eq!(block.get_height(), 1);
    assert_eq!(chain.get_tip_hash(), block.get_hash().to_string());
    assert_eq!(block.get_timestamp(), 1_700_000_100);
}
