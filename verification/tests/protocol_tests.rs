use coin_node::messages::{
    BlockMessage, BlocksBeforeMessage, LastNBlocksMessage, Message, MessageAnswerFirstInfo,
    MessageFirstInfo, TextMessage,
};
use coin_node::node::{Action, Node};

#[test]
fn test_send_message() {
    let mut node = Node::new();
    assert_eq!(node.last_message_id, 0);

    let msg = Message::ResponseTextMessage(TextMessage::new("hello".to_string()));
    let action = node.send_message(msg);

    match action {
        Action::Broadcast(Message::ResponseTextMessage(t)) => {
            assert_eq!(t.get_id(), 1);
            assert_eq!(t.get_text(), "hello");
        }
        other => panic!("expected a text broadcast, got {}", describe(&other)),
    }
    assert_eq!(node.last_message_id, 1);
}

#[test]
fn test_process_request_message_info() {
    let mut node = Node::new();
    let req = Message::RequestMessageInfo(MessageFirstInfo::new());
    let actions = node.handle_message(req);

    assert_eq!(actions.len(), 2);
    match &actions[0] {
        Action::Broadcast(Message::ResponseMessageInfo(m)) => assert_eq!(m.get_id(), 1),
        other => panic!("expected the info reply, got {}", describe(other)),
    }
    match &actions[1] {
        Action::Broadcast(Message::ResponseChainMessage(c)) => assert_eq!(c.get_id(), 2),
        other => panic!("expected the chain reply, got {}", describe(other)),
    }
    assert_eq!(node.last_message_id, 2);
}

#[test]
fn test_process_response_message_info_updates_last_id() {
    let mut node = Node::new();
    node.last_message_id = 5;

    let mut ans = Message::ResponseMessageInfo(MessageAnswerFirstInfo::new());
    ans.set_id(10);
    let actions = node.handle_message(ans);

    assert!(actions.is_empty());
    assert_eq!(node.last_message_id, 10);
}

#[test]
fn test_process_message_ignores_old() {
    let mut node = Node::new();
    node.last_message_id = 5;

    let mut old = Message::ResponseTextMessage(TextMessage::new("old".to_string()));
    old.set_id(3);

    let actions = node.handle_message(old);
    assert!(actions.is_empty());
    assert_eq!(node.last_message_id, 5);
}

#[test]
fn test_process_message_broadcasts_new_text() {
    let mut node = Node::new();
    node.last_message_id = 1;

    let mut txt = Message::ResponseTextMessage(TextMessage::new("world".to_string()));
    txt.set_id(10);
    let actions = node.handle_message(txt);

    assert_eq!(actions.len(), 2);
    match &actions[0] {
        Action::Broadcast(Message::ResponseTextMessage(t)) => {
            assert_eq!(t.get_id(), 10);
            assert_eq!(t.get_text(), "world");
        }
        other => panic!("expected the gossip, got {}", describe(other)),
    }
    match &actions[1] {
        Action::Show(text) => assert_eq!(text, "world"),
        other => panic!("expected the console text, got {}", describe(other)),
    }
    assert_eq!(node.last_message_id, 10);
}

#[test]
fn test_process_request_last_n_blocks() {
    let mut node = Node::new();

    let mut req = LastNBlocksMessage::new(3);
    req.set_id(7);
    let actions = node.handle_message(Message::RequestLastNBlocksMessage(req));

    assert_eq!(actions.len(), 2);
    match &actions[0] {
        Action::Broadcast(Message::RequestLastNBlocksMessage(q)) => {
            assert_eq!(q.get_id(), 7);
            assert_eq!(q.get_n(), 3);
        }
        other => panic!("expected the request echo, got {}", describe(other)),
    }
    match &actions[1] {
        Action::Broadcast(Message::ResponseChainMessage(c)) => assert_eq!(c.get_id(), 8),
        other => panic!("expected the chain reply, got {}", describe(other)),
    }
    assert_eq!(node.last_message_id, 8);
}

#[test]
fn test_process_request_blocks_before() {
    let mut node = Node::new();

    let mut req = BlocksBeforeMessage::new(1_600_000_000);
    req.set_id(5);
    let actions = node.handle_message(Message::RequestBlocksBeforeMessage(req));

    assert_eq!(actions.len(), 2);
    match &actions[0] {
        Action::Broadcast(Message::RequestBlocksBeforeMessage(q)) => {
            assert_eq!(q.get_id(), 5);
            assert_eq!(q.get_time(), 1_600_000_000);
        }
        other => panic!("expected the request echo, got {}", describe(other)),
    }
    match &actions[1] {
        Action::Broadcast(Message::ResponseChainMessage(c)) => assert_eq!(c.get_id(), 6),
        other => panic!("expected the chain reply, got {}", describe(other)),
    }
    assert_eq!(node.last_message_id, 6);
}

#[test]
fn test_gossip_dedup_single_emission() {
    // one frame travels a ring of nodes: each emits it exactly once,
    // and a returning copy is dropped
    let mut text = TextMessage::new("hi".to_string());
    text.set_id(5);

    let mut b = Node::new();
    let mut c = Node::new();
    let mut d = Node::new();

    let from_b = b.handle_message(Message::ResponseTextMessage(clone_text(&text)));
    assert_eq!(broadcast_count(&from_b), 1);
    let from_c = c.handle_message(Message::ResponseTextMessage(clone_text(&text)));
    assert_eq!(broadcast_count(&from_c), 1);
    let from_d = d.handle_message(Message::ResponseTextMessage(clone_text(&text)));
    assert_eq!(broadcast_count(&from_d), 1);

    // the frame comes back around: every node has seen id 5
    let again = b.handle_message(Message::ResponseTextMessage(clone_text(&text)));
    assert!(again.is_empty());
}

#[test]
fn test_stale_block_triggers_resync() {
    let mut node = Node::new();
    node.blockchain.create_first_block();

    let stale = coin_node::block::Block::new(2, vec![], "deadbeef".to_string(), 0);
    let mut bm = BlockMessage::new(stale, false);
    bm.set_id(4);
    let actions = node.handle_message(Message::ResponseBlockMessage(bm));

    assert_eq!(actions.len(), 2);
    match &actions[1] {
        Action::Broadcast(Message::RequestLastNBlocksMessage(q)) => {
            assert_eq!(q.get_n(), 10);
            assert_eq!(q.get_id(), 5);
        }
        other => panic!("expected the resync request, got {}", describe(other)),
    }
    assert_eq!(node.blockchain.len(), 1);
}

#[test]
fn test_forced_wire_block_is_ignored() {
    let mut node = Node::new();
    node.blockchain.create_first_block();

    let intruder = coin_node::block::Block::new(9, vec![], "whatever".to_string(), 1);
    let mut bm = BlockMessage::new(intruder, true);
    bm.set_id(3);
    let actions = node.handle_message(Message::ResponseBlockMessage(bm));

    // gossiped onward, but the chain is untouched
    assert_eq!(actions.len(), 1);
    assert_eq!(node.blockchain.len(), 1);
}

fn clone_text(t: &TextMessage) -> TextMessage {
    let mut copy = TextMessage::new(t.get_text());
    copy.set_id(t.get_id());
    copy
}

fn broadcast_count(actions: &[Action]) -> usize {
    actions.iter().filter(|a| matches!(a, Action::Broadcast(_))).count()
}

fn describe(a: &Action) -> &'static str {
    match a {
        Action::Broadcast(_) => "a broadcast",
        Action::Show(_) => "a console text",
        Action::Dial(_) => "a dial request",
    }
}
