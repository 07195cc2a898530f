use gsio_node::entry::LedgerEntry;
use gsio_node::ledger::Ledger;
use gsio_node::time::Timestamp;
use gsio_node::p2p::{MessageType, Outgoing, P2PManager, P2PMessage, Payload};

fn manager(node_id: &str) -> P2PManager {
    P2PManager::new(node_id.to_string(), Ledger::new(node_id.to_string()))
}

#[test]
fn test_p2p_message_creation() {
    let message_type = MessageType::NodeAnnounce;
    let sender_id = "test-node-1".to_string();
    let recipient_id = "test-node-2".to_string();

    let message = P2PMessage::new(
        message_type,
        sender_id.clone(),
        recipient_id.clone(),
        Payload::NodeId("test-node-1".to_string()),
    );

    assert!(matches!(message.message_type, MessageType::NodeAnnounce));
    assert_eq!(message.sender_id, sender_id);
    assert_eq!(message.recipient_id, recipient_id);
    assert!(matches!(&message.payload, Payload::NodeId(id) if id == "test-node-1"));
    assert!(!message.message_id.is_empty());
}

#[test]
fn test_p2p_manager_creation() {
    let node_id = "test-node-1".to_string();
    let ledger = Ledger::new(node_id.clone());
    let p2p_manager = P2PManager::new(node_id.clone(), ledger);
    assert_eq!(p2p_manager.node_id(), &node_id);
}

#[test]
fn test_handle_connection() {
    let node_id = "test-node-1".to_string();
    let ledger = Ledger::new(node_id.clone());
    let mut p2p_manager = P2PManager::new(node_id.clone(), ledger);

    let _sends = p2p_manager.handle_connection(1, Some("test-node-2".to_string()));

    let known_nodes = p2p_manager.ledger.get_known_nodes();
    assert!(known_nodes.contains(&"test-node-2".to_string()));
}

#[test]
fn test_broadcast_message() {
    let node_id = "test-node-1".to_string();
    let mut p2p_manager = manager(&node_id);
    p2p_manager.register_connection("test-node-2".to_string(), 1);
    p2p_manager.register_connection("test-node-3".to_string(), 2);

    let message = P2PMessage::new(
        MessageType::NodeAnnounce,
        node_id.clone(),
        "".to_string(),
        Payload::NodeId(node_id.clone()),
    );
    let sends = p2p_manager.broadcast_message(message);

    let to1: Vec<&Outgoing> = sends.iter().filter(|o| o.connection == 1).collect();
    let to2: Vec<&Outgoing> = sends.iter().filter(|o| o.connection == 2).collect();
    assert_eq!(to1.len(), 1);
    assert_eq!(to2.len(), 1);
    assert_eq!(to1[0].message.sender_id, node_id);
    assert_eq!(to2[0].message.sender_id, node_id);
}

#[test]
fn test_send_message() {
    let node_id = "test-node-1".to_string();
    let mut p2p_manager = manager(&node_id);
    p2p_manager.register_connection("test-node-2".to_string(), 7);

    let message = P2PMessage::new(
        MessageType::NodeListRequest,
        node_id.clone(),
        "test-node-2".to_string(),
        Payload::Empty,
    );
    let result = p2p_manager.send_message("test-node-2".to_string(), message);

    assert!(result.is_some());
    let sent = result.unwrap();
    assert_eq!(sent.connection, 7);
    assert_eq!(sent.message.sender_id, node_id);
    assert_eq!(sent.message.recipient_id, "test-node-2");
}

#[test]
fn test_request_node_list() {
    let node_id = "test-node-1".to_string();
    let mut p2p_manager = manager(&node_id);
    p2p_manager.register_connection("test-node-2".to_string(), 3);

    let result = p2p_manager.request_node_list("test-node-2".to_string());
    assert!(result.is_some());
    let sent = result.unwrap();
    assert_eq!(sent.connection, 3);
    assert_eq!(sent.message.sender_id, node_id);
    assert_eq!(sent.message.recipient_id, "test-node-2");
    assert_eq!(sent.message.message_type, MessageType::NodeListRequest);
}

#[test]
fn test_request_entry() {
    let node_id = "test-node-1".to_string();
    let mut p2p_manager = manager(&node_id);
    p2p_manager.register_connection("test-node-2".to_string(), 3);

    let entry_id = "test-entry-1".to_string();
    let result = p2p_manager.request_entry("test-node-2".to_string(), entry_id.clone());
    assert!(result.is_some());
    let sent = result.unwrap();
    assert_eq!(sent.message.sender_id, node_id);
    assert_eq!(sent.message.recipient_id, "test-node-2");
    assert_eq!(sent.message.message_type, MessageType::EntryRequest);
    assert!(matches!(&sent.message.payload, Payload::EntryId(id) if *id == entry_id));
}

#[test]
fn test_request_ledger_sync() {
    let node_id = "test-node-1".to_string();
    let mut p2p_manager = manager(&node_id);
    p2p_manager.register_connection("test-node-2".to_string(), 3);

    let result = p2p_manager.request_ledger_sync("test-node-2".to_string());
    assert!(result.is_some());
    let sent = result.unwrap();
    assert_eq!(sent.message.sender_id, node_id);
    assert_eq!(sent.message.recipient_id, "test-node-2");
    assert_eq!(sent.message.message_type, MessageType::LedgerSyncRequest);
}

#[test]
fn send_to_unknown_peer_fails_and_changes_nothing() {
    let mut m = manager("n1");
    m.register_connection("p".to_string(), 1);
    let message = P2PMessage::new(MessageType::NodeListRequest, "n1".to_string(), "q".to_string(), Payload::Empty);
    assert!(m.send_message("q".to_string(), message).is_none());
    assert!(m.request_node_list("q".to_string()).is_none());
    assert!(m.request_entry("q".to_string(), "e".to_string()).is_none());
    assert!(m.request_ledger_sync("q".to_string()).is_none());
    assert_eq!(m.connected_nodes, vec![("p".to_string(), 1)]);
}

#[test]
fn message_ids_are_fresh_uuids() {
    let a = P2PMessage::new(MessageType::NodeAnnounce, "n".to_string(), "".to_string(), Payload::Empty);
    let b = P2PMessage::new(MessageType::NodeAnnounce, "n".to_string(), "".to_string(), Payload::Empty);
    assert_eq!(a.message_id.len(), 36);
    assert_ne!(a.message_id, b.message_id);
}

#[test]
fn connection_announces_to_everyone_and_reconnect_overwrites() {
    let mut m = manager("n1");
    let first = m.handle_connection(1, Some("p".to_string()));
    assert_eq!(first.len(), 1);
    assert_eq!(first[0].connection, 1);
    assert_eq!(first[0].message.message_type, MessageType::NodeAnnounce);
    assert!(matches!(&first[0].message.payload, Payload::NodeId(id) if id == "p"));

    let second = m.handle_connection(2, None);
    assert_eq!(second.len(), 2);
    assert!(matches!(&second[0].message.payload, Payload::NodeId(id) if id == "unknown"));
    assert!(m.ledger.get_known_nodes().contains(&"unknown".to_string()));

    let again = m.handle_connection(9, Some("p".to_string()));
    assert_eq!(again.len(), 2);
    assert_eq!(m.connected_nodes, vec![("p".to_string(), 9), ("unknown".to_string(), 2)]);
}

#[test]
fn node_announce_adds_the_named_node() {
    let mut m = manager("n1");
    let msg = P2PMessage::new(MessageType::NodeAnnounce, "x".to_string(), "".to_string(), Payload::NodeId("x".to_string()));
    assert!(m.handle_message(1, msg).is_empty());
    assert!(m.ledger.get_known_nodes().contains(&"x".to_string()));
}

#[test]
fn node_list_request_is_answered_on_the_same_connection() {
    let mut m = manager("n1");
    m.ledger.add_known_node("a".to_string());
    let msg = P2PMessage::new(MessageType::NodeListRequest, "a".to_string(), "n1".to_string(), Payload::Empty);
    let out = m.handle_message(4, msg);
    assert_eq!(out.len(), 1);
    assert_eq!(out[0].connection, 4);
    assert_eq!(out[0].message.message_type, MessageType::NodeListResponse);
    assert_eq!(out[0].message.recipient_id, "a");
    match &out[0].message.payload {
        Payload::Nodes(ns) => {
            assert_eq!(ns.len(), 2);
            assert!(ns.contains(&"n1".to_string()) && ns.contains(&"a".to_string()));
        }
        _ => panic!("expected a node list"),
    }
}

#[test]
fn entry_announce_links_and_regossips() {
    let mut a = manager("a");
    let e1 = a.ledger.add_entry("{\"m\":1}".to_string()).unwrap();

    let mut b = manager("b");
    b.register_connection("c".to_string(), 5);
    let msg = P2PMessage::new(MessageType::EntryAnnounce, "a".to_string(), "".to_string(), Payload::Entry(e1.clone()));
    let out = b.handle_message(1, msg);
    assert_eq!(b.ledger.get_entries().len(), 1);
    assert_eq!(b.ledger.get_entries()[0].hash, e1.hash);
    assert_eq!(out.len(), 1);
    assert_eq!(out[0].connection, 5);
    assert_eq!(out[0].message.message_type, MessageType::EntryAnnounce);
    assert_eq!(out[0].message.sender_id, "b");

    let msg = P2PMessage::new(MessageType::EntryAnnounce, "a".to_string(), "".to_string(), Payload::Entry(e1));
    assert!(b.handle_message(1, msg).is_empty());
    assert_eq!(b.ledger.get_entries().len(), 1);
}

#[test]
fn entry_request_answers_only_when_found() {
    let mut m = manager("n1");
    let e = m.ledger.add_entry("{}".to_string()).unwrap();
    let ask = P2PMessage::new(MessageType::EntryRequest, "p".to_string(), "n1".to_string(), Payload::EntryId(e.id.clone()));
    let out = m.handle_message(2, ask);
    assert_eq!(out.len(), 1);
    assert_eq!(out[0].message.message_type, MessageType::EntryResponse);
    assert!(matches!(&out[0].message.payload, Payload::Entry(found) if found.hash == e.hash));

    let ask = P2PMessage::new(MessageType::EntryRequest, "p".to_string(), "n1".to_string(), Payload::EntryId("nope".to_string()));
    assert!(m.handle_message(2, ask).is_empty());
}

#[test]
fn ledger_sync_round_trip_merges_one_hop_per_reconcile() {
    let mut a = manager("a");
    let t1 = Timestamp::from_parts(10, 0).unwrap();
    let t2 = Timestamp::from_parts(11, 0).unwrap();
    let e1 = LedgerEntry::with_timestamp("1".to_string(), "0".repeat(64), "a".to_string(), t1);
    let e2 = LedgerEntry::with_timestamp("2".to_string(), e1.hash.clone(), "a".to_string(), t2);
    a.ledger.add_pending_entry(e1.clone());
    a.ledger.process_pending_entries();
    a.ledger.add_pending_entry(e2.clone());
    a.ledger.process_pending_entries();
    assert_eq!(a.ledger.get_entries().len(), 2);
    let ask = P2PMessage::new(MessageType::LedgerSyncRequest, "b".to_string(), "a".to_string(), Payload::Empty);
    let out = a.handle_message(3, ask);
    assert_eq!(out.len(), 1);
    assert_eq!(out[0].message.message_type, MessageType::LedgerSyncResponse);

    let mut b = manager("b");
    let reply = out.into_iter().next().unwrap().message;
    assert!(b.handle_message(3, reply).is_empty());
    assert_eq!(b.ledger.get_entries().len(), 1);
    assert_eq!(b.ledger.get_entries()[0].hash, e1.hash);
    let linked = b.ledger.process_pending_entries();
    assert_eq!(linked.len(), 1);
    assert_eq!(linked[0].hash, e2.hash);
}

#[test]
fn unrequested_responses_and_malformed_payloads_are_dropped() {
    let mut m = manager("n1");
    let msg = P2PMessage::new(MessageType::EntryResponse, "p".to_string(), "n1".to_string(), Payload::Empty);
    assert!(m.handle_message(1, msg).is_empty());
    let msg = P2PMessage::new(MessageType::EntryAnnounce, "p".to_string(), "".to_string(), Payload::Empty);
    assert!(m.handle_message(1, msg).is_empty());
    assert!(m.ledger.get_entries().is_empty());
}

#[test]
fn broadcast_entry_reaches_every_connection() {
    let mut m = manager("n1");
    m.register_connection("a".to_string(), 1);
    m.register_connection("b".to_string(), 2);
    let e = LedgerEntry::new("{}".to_string(), "0".repeat(64), "n1".to_string());
    let out = m.broadcast_entry(e.clone());
    assert_eq!(out.len(), 2);
    assert_eq!(out[0].connection, 1);
    assert_eq!(out[1].connection, 2);
    assert_eq!(out[0].message.recipient_id, "");
    assert!(matches!(&out[1].message.payload, Payload::Entry(x) if x.hash == e.hash));
}

#[test]
fn announce_linked_sends_each_entry_to_each_connection_in_order() {
    let mut m = manager("n1");
    m.register_connection("a".to_string(), 1);
    m.register_connection("b".to_string(), 2);
    let t1 = Timestamp::from_parts(1, 0).unwrap();
    let t2 = Timestamp::from_parts(2, 0).unwrap();
    let e1 = LedgerEntry::with_timestamp("1".to_string(), "0".repeat(64), "x".to_string(), t1);
    let e2 = LedgerEntry::with_timestamp("2".to_string(), e1.hash.clone(), "x".to_string(), t2);
    let out = m.announce_linked(&vec![e1.clone(), e2.clone()]);
    assert_eq!(out.len(), 4);
    let conns: Vec<u64> = out.iter().map(|o| o.connection).collect();
    assert_eq!(conns, vec![1, 2, 1, 2]);
    assert!(matches!(&out[0].message.payload, Payload::Entry(x) if x.hash == e1.hash));
    assert!(matches!(&out[3].message.payload, Payload::Entry(x) if x.hash == e2.hash));
    assert_eq!(out[0].message.message_id, out[1].message.message_id);
    assert_ne!(out[1].message.message_id, out[2].message.message_id);
    assert!(m.announce_linked(&vec![]).is_empty());
}
