use coin_node::messages::{Message, TransactionMessage};
use coin_node::node::{Action, Node, try_mine};
use coin_node::transaction::{SerializedTransaction, Transaction};
use coin_node::wallet::Wallet;

/// Searches nonces in bounded rounds until a block meets the target.
fn mine(node: &Node, txs: Vec<SerializedTransaction>) -> coin_node::block::Block {
    let tip = node.blockchain.get_last_block().expect("chain must have a tip");
    let id = tip.get_id() + 1;
    let prev = tip.get_hash();
    let mut start = 0u64;
    loop {
        match try_mine(id, txs.clone(), prev.clone(), start, 10_000) {
            Some(block) => return block,
            None => start += 10_000,
        }
    }
}

#[test]
fn test_genesis_bootstrap_and_first_block() {
    let mut node = Node::new();
    node.blockchain.create_first_block();

    let block = mine(&node, vec![]);
    let announced = node.submit_mined_block(block);

    assert!(announced.is_some());
    assert_eq!(node.blockchain.len(), 2);
    let chain = node.blockchain.get_full_chain();
    assert_eq!(chain[1].get_id(), 2);
    assert_eq!(chain[1].get_previous_hash(), chain[0].get_hash());
    assert!(chain[1].get_hash().starts_with("000"));
    // genesis carries the fixed seed hash
    assert_eq!(chain[0].get_id(), 1);
    assert!(chain[0].get_previous_hash().len() == 128);
}

#[test]
fn test_fork_choice_converges_on_higher_tip() {
    // two nodes share a tip of height 1, then mine apart
    let mut a = Node::new();
    a.blockchain.create_first_block();
    let genesis = a.blockchain.get_last_block().unwrap();
    let mut b = Node::new();
    b.blockchain.add_force_block(genesis.clone());

    for _ in 0..2 {
        let block = mine(&a, vec![]);
        a.submit_mined_block(block).unwrap();
    }
    for _ in 0..3 {
        let block = mine(&b, vec![]);
        b.submit_mined_block(block).unwrap();
    }
    assert_eq!(a.blockchain.len(), 3);
    assert_eq!(b.blockchain.len(), 4);

    // exchange chains; both end on the height-4 tip, byte-identical
    let from_b = b.blockchain.get_full_chain();
    let from_a = a.blockchain.get_full_chain();
    assert!(a.blockchain.consider_replacement(from_b));
    assert!(!b.blockchain.consider_replacement(from_a));
    assert_eq!(a.blockchain.len(), 4);
    assert_eq!(
        a.blockchain.get_last_block().unwrap().get_hash(),
        b.blockchain.get_last_block().unwrap().get_hash()
    );
}

#[test]
fn test_mined_block_clears_mempool_entries() {
    let mut node = Node::new();
    node.blockchain.create_first_block();

    let wallet = Wallet::with_key_bits(512).expect("key generation failed");
    let key = wallet.get_public_key_string();
    let st = SerializedTransaction::new(
        key.clone(),
        key.clone(),
        key,
        "pay".to_string(),
        "3.5".to_string(),
    );
    let mut tx = Transaction::deserialize(st).expect("keys should parse");
    assert!(tx.sign(wallet.get_private_key().as_slice()));
    let signed = tx.serialize();

    let mut tm = TransactionMessage::new(signed.clone());
    tm.set_id(1);
    node.handle_message(Message::ResponseTransactionMessage(tm));
    assert_eq!(node.mempool.len(), 1);

    // the miner takes the batch, finds a block, and the entry is gone
    let batch = node.mempool.get_transactions();
    assert_eq!(batch.len(), 1);
    node.return_batch(batch.clone());
    let block = mine(&node, batch);
    node.submit_mined_block(block).unwrap();
    assert_eq!(node.mempool.len(), 0);
}

#[test]
fn test_invalid_signature_is_dropped() {
    let mut node = Node::new();
    let wallet = Wallet::with_key_bits(512).expect("key generation failed");
    let key = wallet.get_public_key_string();
    let mut st = SerializedTransaction::new(
        key.clone(),
        key.clone(),
        key,
        "pay".to_string(),
        "3.5".to_string(),
    );
    st.signature = "bm90IGEgc2lnbmF0dXJl".to_string();

    let mut tm = TransactionMessage::new(st);
    tm.set_id(1);
    let actions = node.handle_message(Message::ResponseTransactionMessage(tm));
    // still gossiped, but not queued
    assert_eq!(actions.len(), 1);
    assert_eq!(node.mempool.len(), 0);
}

#[test]
fn test_dial_action_for_new_peer() {
    let mut node = Node::new();
    let mut pm = coin_node::messages::PeerMessage::new("10.0.0.7".to_string());
    pm.set_id(2);
    let actions = node.handle_message(Message::ResponsePeerMessage(pm));
    assert_eq!(actions.len(), 2);
    assert!(matches!(&actions[1], Action::Dial(addr) if addr == "10.0.0.7"));
}
