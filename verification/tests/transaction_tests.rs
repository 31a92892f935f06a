use coin_node::transaction::{SerializedTransaction, Transaction};
use coin_node::wallet::{Wallet, create_signed_transaction};

#[test]
fn test_transaction_sign_and_verify() {
    let sender_wallet = Wallet::with_key_bits(512).expect("key generation failed");

    let sender_b64 = sender_wallet.get_public_key_string();
    let buyer_b64 = sender_b64.clone();
    let seller_b64 = sender_b64.clone();

    let st = SerializedTransaction::new(
        sender_b64,
        seller_b64,
        buyer_b64,
        "Test Message".to_string(),
        "42.0".to_string(),
    );
    let mut tx = Transaction::deserialize(st).expect("keys should parse");
    assert!(tx.sign(sender_wallet.get_private_key().as_slice()));

    assert!(tx.verify());
}

#[test]
fn test_verify_rejects_tampering() {
    let wallet = Wallet::with_key_bits(512).expect("key generation failed");
    let key = wallet.get_public_key_string();

    let st = SerializedTransaction::new(
        key.clone(),
        key.clone(),
        key,
        "pay".to_string(),
        "1.0".to_string(),
    );
    let mut tx = Transaction::deserialize(st).expect("keys should parse");
    assert!(tx.sign(wallet.get_private_key().as_slice()));
    assert!(tx.verify());

    // a changed message breaks the signature
    let mut altered = tx.clone();
    altered.message = "pay more".to_string();
    assert!(!altered.verify());

    // a changed amount breaks it too: the transfer is signed
    let mut altered = tx.clone();
    altered.transfer = "2.0".to_string();
    assert!(!altered.verify());

    // and so does a corrupted signature
    let mut altered = tx.clone();
    altered.signature = format!("A{}", &altered.signature[1..]);
    assert!(altered.signature != tx.signature);
    assert!(!altered.verify());
}

#[test]
fn test_serialize_deserialize() {
    let sender_wallet = Wallet::with_key_bits(512).expect("key generation failed");
    let key = sender_wallet.get_public_key_string();

    let st = SerializedTransaction::new(
        key.clone(),
        key.clone(),
        key,
        "Hello".to_string(),
        "100.0".to_string(),
    );
    let mut tx = Transaction::deserialize(st).expect("keys should parse");
    assert!(tx.sign(sender_wallet.get_private_key().as_slice()));

    let json = tx.to_json();
    let deserialized = Transaction::from_json(&json).unwrap();

    assert_eq!(deserialized.get_message(), "Hello");
    assert_eq!(deserialized.get_transfer(), "100.0");
    assert!(deserialized.verify());
}

#[test]
fn test_transaction_json_roundtrip() {
    let sender_wallet = Wallet::with_key_bits(512).expect("key generation failed");
    let key = sender_wallet.get_public_key_string();

    let st = SerializedTransaction::new(
        key.clone(),
        key.clone(),
        key,
        "JSON Test".to_string(),
        "77.7".to_string(),
    );
    let mut tx = Transaction::deserialize(st).expect("keys should parse");
    assert!(tx.sign(sender_wallet.get_private_key().as_slice()));

    let json = tx.to_json();
    let restored = Transaction::from_json(&json).unwrap();

    assert_eq!(tx.get_transfer(), restored.get_transfer());
    assert_eq!(tx.get_message(), restored.get_message());
    assert!(restored.verify());
}

#[test]
fn test_create_signed_transaction() {
    let (wallet, tx) =
        create_signed_transaction(512, "hello".to_string(), "12.0".to_string())
            .expect("key generation failed");
    assert_eq!(tx.get_message(), "hello");
    assert_eq!(tx.get_transfer(), "12.0");
    assert_eq!(tx.get_sender(), wallet.get_public_key_string());
    assert!(tx.verify());

    // a transfer that is not a decimal token is refused
    assert!(create_signed_transaction(512, "x".to_string(), "a lot".to_string()).is_none());
}

#[test]
fn test_wallet_sign_helper() {
    let wallet = Wallet::with_key_bits(512).expect("key generation failed");
    let key = wallet.get_public_key_string();
    let st = SerializedTransaction::new(
        key.clone(),
        key.clone(),
        key,
        "note".to_string(),
        "0.5".to_string(),
    );
    let mut tx = Transaction::deserialize(st).expect("keys should parse");
    assert!(wallet.sign_transaction(&mut tx));
    assert!(tx.verify());
}

#[test]
fn test_transaction_ordering() {
    let tx1 = SerializedTransaction::new(
        "sender".into(),
        "seller".into(),
        "buyer".into(),
        "msg".into(),
        "50.0".into(),
    );
    let tx2 = SerializedTransaction::new(
        "sender".into(),
        "seller".into(),
        "buyer".into(),
        "msg".into(),
        "100.0".into(),
    );

    assert!(tx1 < tx2);
    assert!(tx2 > tx1);
}

#[test]
fn test_deserialize_rejects_bad_key() {
    let st = SerializedTransaction::new(
        "@@not-base64@@".to_string(),
        "x".to_string(),
        "y".to_string(),
        "msg".to_string(),
        "1".to_string(),
    );
    assert!(Transaction::deserialize(st).is_err());
}

#[test]
fn test_deserialize_rejects_bad_amount() {
    let wallet = Wallet::with_key_bits(512).expect("key generation failed");
    let key = wallet.get_public_key_string();
    let st = SerializedTransaction::new(
        key.clone(),
        key.clone(),
        key,
        "msg".to_string(),
        "one hundred".to_string(),
    );
    assert!(Transaction::deserialize(st).is_err());
}

#[test]
fn test_new_trims_keys() {
    let st = SerializedTransaction::new(
        "  abc \n".to_string(),
        "\tdef".to_string(),
        "ghi ".to_string(),
        " msg ".to_string(),
        "1.5".to_string(),
    );
    assert_eq!(st.get_sender(), "abc");
    assert_eq!(st.sender, "abc");
    assert_eq!(st.seller, "def");
    assert_eq!(st.buyer, "ghi");
    // the message is carried as given
    assert_eq!(st.message, " msg ");
    assert_eq!(st.get_transfer(), "1.5");
}
