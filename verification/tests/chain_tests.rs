use coin_node::block::Block;
use coin_node::chain::{Blockchain, validate_chain};
use coin_node::transaction::SerializedTransaction;

fn sample_transactions() -> Vec<SerializedTransaction> {
    vec![
        SerializedTransaction::new(
            "sender_base64".to_string(),
            "seller_base64".to_string(),
            "buyer_base64".to_string(),
            "Test message".to_string(),
            "123.45".to_string(),
        ),
    ]
}

/// Searches nonces until the block hash starts with `"000"`.
fn mine_valid_block(
    id: usize,
    transactions: Vec<SerializedTransaction>,
    previous_hash: String,
) -> Block {
    let mut nonce = 0;
    loop {
        let block = Block::new(id, transactions.clone(), previous_hash.clone(), nonce);
        if block.get_hash().starts_with("000") {
            return block;
        }
        nonce += 1;
    }
}

#[test]
fn test_create_first_block() {
    let mut blockchain = Blockchain::new();
    blockchain.create_first_block();
    assert_eq!(blockchain.len(), 1);

    let first_block = blockchain.get_last_block().unwrap();
    assert_eq!(first_block.get_nonce(), 0);
}

#[test]
fn test_add_valid_block() {
    let mut blockchain = Blockchain::new();
    blockchain.create_first_block();

    let last_block = blockchain.get_last_block().unwrap();
    let prev_hash = last_block.get_hash();
    let transactions = sample_transactions();
    let new_block = mine_valid_block(last_block.get_id() + 1, transactions, prev_hash);

    let result = blockchain.add_block(new_block.clone());
    assert!(result.is_ok());
    assert_eq!(blockchain.len(), 2);
}

#[test]
fn test_add_invalid_block() {
    let mut blockchain = Blockchain::new();
    blockchain.create_first_block();

    let last_block = blockchain.get_last_block().unwrap();
    let transactions = sample_transactions();

    let mut invalid_block = Block::new(
        last_block.get_id() + 1,
        transactions.clone(),
        last_block.get_hash(),
        0,
    );
    if invalid_block.get_hash().starts_with("000") {
        invalid_block = Block::new(
            last_block.get_id() + 1,
            transactions,
            last_block.get_hash(),
            9999,
        );
        assert!(!invalid_block.get_hash().starts_with("000"));
    }

    let result = blockchain.add_block(invalid_block);
    assert!(result.is_err());
}

#[test]
fn test_get_last_n_blocks() {
    let mut blockchain = Blockchain::new();
    blockchain.create_first_block();

    for _ in 2..6 {
        let last_block = blockchain.get_last_block().unwrap();
        let new_block = mine_valid_block(
            last_block.get_id() + 1,
            sample_transactions(),
            last_block.get_hash(),
        );
        blockchain.add_force_block(new_block);
    }

    let n = 3;
    let last_n = blockchain.get_last_n_blocks(n);
    assert_eq!(last_n.len(), n);
}

#[test]
fn test_clear_nonce() {
    let mut blockchain = Blockchain::new();
    blockchain.clear_nonce();
}

#[test]
fn test_validate_chain_function() {
    let mut blockchain = Blockchain::new();
    blockchain.create_first_block();

    for _ in 0..3 {
        let last_block = blockchain.get_last_block().unwrap();
        let new_block = mine_valid_block(
            last_block.get_id() + 1,
            sample_transactions(),
            last_block.get_hash(),
        );
        blockchain.add_force_block(new_block);
    }
    assert!(validate_chain(&blockchain.chain));

    let mut invalid_chain = blockchain.chain.clone();
    if let Some(block) = invalid_chain.get_mut(2) {
        block.set_previous_hash("fake_hash".to_string());
    }
    assert!(!validate_chain(&invalid_chain));
}

#[test]
fn test_get_blocks_after_before() {
    let mut blockchain = Blockchain::new();
    blockchain.add_force_block(Block::force_new(1, 100, vec![], "p1".to_string(), 0));
    blockchain.add_force_block(Block::force_new(2, 200, vec![], "p2".to_string(), 0));
    blockchain.add_force_block(Block::force_new(3, 300, vec![], "p3".to_string(), 0));

    let after = blockchain.get_blocks_after(150);
    assert_eq!(after.len(), 2);
    assert_eq!(after[0].get_id(), 2);
    assert_eq!(after[1].get_id(), 3);

    let before = blockchain.get_blocks_before(300);
    assert_eq!(before.len(), 2);
    assert_eq!(before[0].get_id(), 1);
    assert_eq!(before[1].get_id(), 2);

    // the bounds are strict
    assert_eq!(blockchain.get_blocks_after(300).len(), 0);
    assert_eq!(blockchain.get_blocks_before(100).len(), 0);
}

#[test]
fn test_validate_chain_trivial_cases() {
    // an empty chain and a single block have no pair to check
    assert!(validate_chain(&vec![]));
    let lone = Block::new(1, vec![], "anything".to_string(), 5);
    assert!(validate_chain(&vec![lone]));
}

#[test]
fn test_add_block_on_empty_chain_fails() {
    let mut blockchain = Blockchain::new();
    let block = mine_valid_block(1, vec![], "prev".to_string());
    assert!(blockchain.add_block(block).is_err());
    assert_eq!(blockchain.len(), 0);
}

#[test]
fn test_stale_block_rejected() {
    let mut blockchain = Blockchain::new();
    blockchain.create_first_block();
    let stale = mine_valid_block(2, vec![], "deadbeef".to_string());
    let result = blockchain.add_block(stale);
    assert!(result.is_err());
    assert_eq!(blockchain.len(), 1);
}

#[test]
fn test_replacement_adopts_longer_chain() {
    // two nodes share a genesis, one mines further
    let mut a = Blockchain::new();
    a.create_first_block();
    let genesis = a.get_last_block().unwrap();

    let mut b = Blockchain::new();
    b.add_force_block(genesis.clone());

    let b2 = mine_valid_block(2, vec![], genesis.get_hash());
    b.add_block(b2.clone()).unwrap();
    let b3 = mine_valid_block(3, sample_transactions(), b2.get_hash());
    b.add_block(b3.clone()).unwrap();

    let adopted = a.consider_replacement(b.get_full_chain());
    assert!(adopted);
    assert_eq!(a.len(), 3);
    assert_eq!(a.get_last_block().unwrap().get_hash(), b3.get_hash());

    // the shorter chain is not adopted in the other direction
    let keep = b.consider_replacement(vec![genesis.clone()]);
    assert!(!keep);
    assert_eq!(b.len(), 3);
}

#[test]
fn test_replacement_rejects_foreign_genesis() {
    let mut a = Blockchain::new();
    a.create_first_block();

    let fake_first = mine_valid_block(1, vec![], "not_the_seed".to_string());
    let fake_second = mine_valid_block(2, vec![], fake_first.get_hash());
    let adopted = a.consider_replacement(vec![fake_first, fake_second]);
    assert!(!adopted);
    assert_eq!(a.len(), 1);
}
