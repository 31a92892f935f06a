use coin_node::block::Block;
use coin_node::json::{block_from_json, block_to_json, tx_from_json, tx_to_json};
use coin_node::transaction::SerializedTransaction;

fn tx(message: &str, transfer: &str) -> SerializedTransaction {
    SerializedTransaction {
        sender: "c2VuZGVy".to_string(),
        buyer: "YnV5ZXI".to_string(),
        seller: "c2VsbGVy".to_string(),
        message: message.to_string(),
        transfer: transfer.to_string(),
        signature: "c2ln".to_string(),
    }
}

#[test]
fn test_tx_json_exact_text() {
    let t = SerializedTransaction {
        sender: "a".to_string(),
        buyer: "b".to_string(),
        seller: "c".to_string(),
        message: "m".to_string(),
        transfer: "1.5".to_string(),
        signature: String::new(),
    };
    assert_eq!(
        tx_to_json(&t),
        r#"{"sender":"a","buyer":"b","seller":"c","message":"m","transfer":1.5,"signature":""}"#
    );
}

#[test]
fn test_wire_transaction_json_roundtrip() {
    let t = tx("hello there", "12.75");
    let text = tx_to_json(&t);
    let back = tx_from_json(&text).expect("own rendering must parse");
    assert_eq!(back, t);
    assert_eq!(back.buyer, t.buyer);
    assert_eq!(back.seller, t.seller);
}

#[test]
fn test_json_escapes_roundtrip() {
    let t = tx("line one\nquote \" and \\ tab\t end\r", "-0.125");
    let text = tx_to_json(&t);
    let back = tx_from_json(&text).expect("own rendering must parse");
    assert_eq!(back.message, t.message);
    assert_eq!(back, t);
}

#[test]
fn test_block_json_serialization() {
    let transactions = vec![tx("Test message", "123.45")];
    let block = Block::new(3, transactions, "prev".to_string(), 777);

    let json = block_to_json(&block);
    let deserialized = block_from_json(&json).expect("own rendering must parse");

    assert_eq!(deserialized.get_id(), 3);
    assert_eq!(deserialized.get_nonce(), 777);
    assert_eq!(deserialized.get_previous_hash(), "prev");
}

#[test]
fn test_block_json_roundtrip() {
    let transactions = vec![tx("first", "1"), tx("second", "2.5"), tx("third", "-3")];
    let block = Block::force_new(42, -7, transactions, "prev_hash".to_string(), 99);

    let json = block.to_json();
    let back = Block::from_json(&json).expect("own rendering must parse");
    assert_eq!(back.get_id(), block.get_id());
    assert_eq!(back.get_datetime(), block.get_datetime());
    assert_eq!(back.get_previous_hash(), block.get_previous_hash());
    assert_eq!(back.get_nonce(), block.get_nonce());
    assert_eq!(back.get_transactions(), block.get_transactions());
    assert_eq!(back.to_json(), json);
}

#[test]
fn test_empty_transaction_list_roundtrip() {
    let block = Block::force_new(1, 0, vec![], "p".to_string(), 0);
    let back = Block::from_json(&block.to_json()).expect("own rendering must parse");
    assert_eq!(back.get_transactions().len(), 0);
}

#[test]
fn test_malformed_json_is_rejected() {
    assert!(block_from_json("not json").is_none());
    assert!(block_from_json("").is_none());
    assert!(tx_from_json("{\"sender\":\"a\"}").is_none());
}
