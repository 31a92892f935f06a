use coin_node::block::Block;
use coin_node::transaction::SerializedTransaction;

fn sample_transaction() -> SerializedTransaction {
    SerializedTransaction::new(
        "sender_base64".to_string(),
        "seller_base64".to_string(),
        "buyer_base64".to_string(),
        "Test message".to_string(),
        "123.45".to_string(),
    )
}

#[test]
fn test_block_creation() {
    let transactions = vec![sample_transaction()];
    let block = Block::new(1, transactions.clone(), "prev_hash".to_string(), 42);

    assert_eq!(block.get_id(), 1);
    assert_eq!(block.get_nonce(), 42);
    assert_eq!(block.get_previous_hash(), "prev_hash");
    assert_eq!(block.get_transactions(), &transactions);
}

#[test]
fn test_block_hash_is_deterministic() {
    let transactions = vec![sample_transaction()];
    let block = Block::new(2, transactions, "abc123".to_string(), 999);

    let hash1 = block.get_hash();
    let hash2 = block.get_hash();

    assert_eq!(hash1, hash2);
}

#[test]
fn test_block_set_previous_hash() {
    let mut block = Block::new(4, vec![], "old_hash".to_string(), 0);
    block.set_previous_hash("new_hash".to_string());

    assert_eq!(block.get_previous_hash(), "new_hash");
}

#[test]
fn test_block_hash_shape() {
    let block = Block::new(7, vec![], "prev".to_string(), 3);
    let hash = block.get_hash();
    assert_eq!(hash.len(), 128);
    assert!(hash.chars().all(|c| c.is_ascii_hexdigit()));
    assert_ne!(hash, block.render_preimage());
}

#[test]
fn test_hex_rendering_exact() {
    assert_eq!(coin_node::hex::to_hex(&vec![]), "");
    assert_eq!(coin_node::hex::to_hex(&vec![0x00, 0xab, 0xff, 0x1e]), "00abff1e");
}

#[test]
fn test_block_hash_depends_on_nonce() {
    let a = Block::force_new(1, 0, vec![], "prev".to_string(), 0);
    let b = Block::force_new(1, 0, vec![], "prev".to_string(), 1);
    assert_ne!(a.get_hash(), b.get_hash());
}

#[test]
fn test_block_hash_ignores_time() {
    let a = Block::force_new(1, 0, vec![], "prev".to_string(), 5);
    let b = Block::force_new(1, 999, vec![], "prev".to_string(), 5);
    assert_eq!(a.get_hash(), b.get_hash());
}
