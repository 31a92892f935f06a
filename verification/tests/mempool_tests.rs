use coin_node::mempool::Mempool;
use coin_node::transaction::SerializedTransaction;

fn tx_with_transfer(transfer: &str) -> SerializedTransaction {
    SerializedTransaction::new(
        "sender".to_string(),
        "seller".to_string(),
        "buyer".to_string(),
        "msg".to_string(),
        transfer.to_string(),
    )
}

#[test]
fn test_mempool_orders_by_transfer_descending() {
    let mut pool = Mempool::new();
    for t in ["3.0", "10.0", "1.5", "7.0"] {
        pool.push(tx_with_transfer(t));
    }

    let batch = pool.pop_batch(4);
    let got: Vec<String> = batch.iter().map(|t| t.get_transfer()).collect();
    assert_eq!(got, vec!["10.0", "7.0", "3.0", "1.5"]);
    assert_eq!(pool.len(), 0);
}

#[test]
fn test_mempool_batch_is_capped() {
    let mut pool = Mempool::new();
    for t in ["1", "2", "3", "4", "5", "6"] {
        pool.push(tx_with_transfer(t));
    }
    let batch = pool.get_transactions();
    assert_eq!(batch.len(), 4);
    assert_eq!(pool.len(), 2);
    let got: Vec<String> = batch.iter().map(|t| t.get_transfer()).collect();
    assert_eq!(got, vec!["6", "5", "4", "3"]);
}

#[test]
fn test_mempool_removes_block_transactions() {
    let mut pool = Mempool::new();
    let a = tx_with_transfer("5.0");
    let b = tx_with_transfer("6.0");
    pool.push(a.clone());
    pool.push(b.clone());
    pool.push(a.clone());

    pool.remove_matching(&vec![a.clone()]);
    assert_eq!(pool.len(), 1);
    let rest = pool.pop_batch(1);
    assert_eq!(rest[0].get_transfer(), "6.0");
}

#[test]
fn test_mempool_negative_and_fraction_order() {
    let mut pool = Mempool::new();
    for t in ["-2", "0.5", "-0.25", "0"] {
        pool.push(tx_with_transfer(t));
    }
    let batch = pool.pop_batch(4);
    let got: Vec<String> = batch.iter().map(|t| t.get_transfer()).collect();
    assert_eq!(got, vec!["0.5", "0", "-0.25", "-2"]);
}

#[test]
fn test_equal_values_in_different_spellings() {
    let mut pool = Mempool::new();
    pool.push(tx_with_transfer("1.50"));
    pool.push(tx_with_transfer("01.5"));
    pool.push(tx_with_transfer("2"));
    let batch = pool.pop_batch(3);
    assert_eq!(batch[0].get_transfer(), "2");
    // the two spellings of the same value come out in some order
    assert_eq!(batch.len(), 3);
}
