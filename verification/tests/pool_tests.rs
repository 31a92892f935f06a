use coin_node::framing::extract_message;
use coin_node::pool::ConnectionPool;

#[test]
fn test_add_connection_and_get_peer_addresses() {
    let mut pool = ConnectionPool::new(10);
    pool.add_connection("127.0.0.1:4242".to_string(), 0);

    let peers = pool.get_peer_addresses();
    assert_eq!(peers, vec!["127.0.0.1:4242".to_string()]);
}

#[test]
fn test_cleanup_inactive() {
    // a timeout of zero makes every silent peer idle at once
    let mut pool = ConnectionPool::new(0);
    pool.add_connection("127.0.0.1:4242".to_string(), 0);

    pool.cleanup_inactive(1);
    assert!(pool.get_peer_addresses().is_empty());
}

#[test]
fn test_cleanup_keeps_recent_peer() {
    let mut pool = ConnectionPool::new(600);
    pool.add_connection("a".to_string(), 100);
    pool.add_connection("b".to_string(), 800);

    pool.cleanup_inactive(650);
    assert_eq!(pool.get_peer_addresses(), vec!["a".to_string(), "b".to_string()]);
    pool.cleanup_inactive(750);
    assert_eq!(pool.get_peer_addresses(), vec!["b".to_string()]);
}

#[test]
fn test_handle_peer_message_and_protocol_forwarding() {
    let mut pool = ConnectionPool::new(10);
    let addr = "127.0.0.1:9000".to_string();
    pool.add_connection(addr.clone(), 0);

    let mut collected = pool.handle_peer_message(&addr, "msg1\nmsg2\npartial", 1);
    let more = pool.handle_peer_message(&addr, "1\n", 2);
    collected.extend(more);

    assert_eq!(collected, vec!["msg1", "msg2", "partial1"]);
}

#[test]
fn test_unknown_peer_chunk_is_dropped() {
    let mut pool = ConnectionPool::new(10);
    let lines = pool.handle_peer_message(&"nobody".to_string(), "data\n", 1);
    assert!(lines.is_empty());
}

#[test]
fn test_remove_connection() {
    let mut pool = ConnectionPool::new(10);
    pool.add_connection("a".to_string(), 0);
    pool.add_connection("b".to_string(), 0);
    pool.remove_connection(&"a".to_string());
    assert_eq!(pool.get_peer_addresses(), vec!["b".to_string()]);
}

#[test]
fn test_extract_message_splits_at_newline() {
    let r = extract_message("hello\nworld");
    let (message, remaining) = r.unwrap();
    assert_eq!(message, "hello");
    assert_eq!(remaining, "world");

    assert!(extract_message("no newline yet").is_none());
}
