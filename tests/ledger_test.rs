use gsio_node::entry::LedgerEntry;
use gsio_node::ledger::Ledger;
use gsio_node::time::Timestamp;

fn zeros() -> String {
    "0".repeat(64)
}

fn is_lower_hex(s: &str) -> bool {
    s.chars().all(|c| c.is_ascii_digit() || ('a'..='f').contains(&c))
}

#[test]
fn test_ledger_entry_creation() {
    let data = r#"{"message":"Test entry"}"#.to_string();
    let previous_hash = "0".repeat(64);
    let creator_node_id = "test-node-1".to_string();

    let entry = LedgerEntry::new(data.clone(), previous_hash.clone(), creator_node_id.clone());

    assert_eq!(entry.data, data);
    assert_eq!(entry.previous_hash, previous_hash);
    assert_eq!(entry.creator_node_id, creator_node_id);
    assert!(!entry.hash.is_empty());
    assert!(entry.signatures.is_empty());
    assert!(entry.is_valid());
}

#[test]
fn test_ledger_add_entry() {
    let node_id = "test-node-1".to_string();
    let mut ledger = Ledger::new(node_id.clone());

    let data = r#"{"message":"Test entry 1"}"#.to_string();
    let result = ledger.add_entry(data.clone());

    assert!(result.is_ok());
    let entry = result.unwrap();
    assert_eq!(entry.data, data);
    assert_eq!(entry.creator_node_id, node_id);

    let entries = ledger.get_entries();
    assert_eq!(entries.len(), 1);
    assert_eq!(entries[0].data, data);
}

#[test]
fn test_ledger_chain_integrity() {
    let node_id = "test-node-1".to_string();
    let mut ledger = Ledger::new(node_id.clone());

    let _entry1 = ledger.add_entry(r#"{"message":"Test entry 1"}"#.to_string()).unwrap();
    let _entry2 = ledger.add_entry(r#"{"message":"Test entry 2"}"#.to_string()).unwrap();
    let _entry3 = ledger.add_entry(r#"{"message":"Test entry 3"}"#.to_string()).unwrap();

    let entries = ledger.get_entries();
    assert_eq!(entries.len(), 3);
    assert_eq!(entries[0].previous_hash, "0".repeat(64));
    assert_eq!(entries[1].previous_hash, entries[0].hash);
    assert_eq!(entries[2].previous_hash, entries[1].hash);
    for entry in entries {
        assert!(entry.is_valid());
    }
}

#[test]
fn test_shared_ledger() {
    let node_id = "test-node-1".to_string();
    let mut ledger = Ledger::new(node_id.clone());

    let data1 = r#"{"message":"Test entry 1"}"#.to_string();
    let data2 = r#"{"message":"Test entry 2"}"#.to_string();
    let _entry1 = ledger.add_entry(data1.clone()).unwrap();
    let _entry2 = ledger.add_entry(data2.clone()).unwrap();

    let entries = ledger.get_entries();
    assert_eq!(entries.len(), 2);
    assert_eq!(entries[0].data, data1);
    assert_eq!(entries[1].data, data2);

    let last_entry = ledger.get_last_entry().unwrap();
    assert_eq!(last_entry.data, data2);
}

#[test]
fn test_pending_entries() {
    let node_id = "test-node-1".to_string();
    let mut ledger = Ledger::new(node_id.clone());

    let data1 = r#"{"message":"Test entry 1"}"#.to_string();
    let entry1 = ledger.add_entry(data1.clone()).unwrap();

    let data2 = r#"{"message":"Test entry 2"}"#.to_string();
    let entry2 = LedgerEntry::new(data2.clone(), entry1.hash.clone(), "test-node-2".to_string());

    ledger.add_pending_entry(entry2.clone());
    let added_entries = ledger.process_pending_entries();

    assert_eq!(added_entries.len(), 1);
    assert_eq!(added_entries[0].data, data2);

    let entries = ledger.get_entries();
    assert_eq!(entries.len(), 2);
    assert_eq!(entries[0].data, data1);
    assert_eq!(entries[1].data, data2);
}

#[test]
fn test_known_nodes() {
    let node_id = "test-node-1".to_string();
    let mut ledger = Ledger::new(node_id.clone());

    ledger.add_known_node("test-node-2".to_string());
    ledger.add_known_node("test-node-3".to_string());
    ledger.add_known_node("test-node-2".to_string());

    let known_nodes = ledger.get_known_nodes();
    assert_eq!(known_nodes.len(), 3);
    assert!(known_nodes.contains(&node_id));
    assert!(known_nodes.contains(&"test-node-2".to_string()));
    assert!(known_nodes.contains(&"test-node-3".to_string()));
}

#[test]
fn first_submission_links_to_genesis_and_second_to_first() {
    let mut ledger = Ledger::new("n1".to_string());
    let first = ledger.add_entry(r#"{"m":"x"}"#.to_string()).unwrap();
    assert_eq!(ledger.get_entries().len(), 1);
    assert_eq!(first.previous_hash, zeros());
    assert!(first.is_valid());
    let second = ledger.add_entry(r#"{"m":"y"}"#.to_string()).unwrap();
    assert_eq!(second.previous_hash, first.hash);
    assert_eq!(ledger.get_entries().len(), 2);
}

#[test]
fn hashes_are_sixty_four_lowercase_hex_digits() {
    let mut ledger = Ledger::new("n1".to_string());
    let e = ledger.add_entry("{}".to_string()).unwrap();
    assert_eq!(e.hash.len(), 64);
    assert!(is_lower_hex(&e.hash));
    assert_eq!(e.hash, e.calculate_hash());
}

#[test]
fn tampering_with_any_field_invalidates_the_entry() {
    let ts = Timestamp::from_parts(1_700_000_000, 5).unwrap();
    let e = LedgerEntry::with_timestamp("{\"a\":1}".to_string(), zeros(), "n1".to_string(), ts);
    assert!(e.is_valid());

    let mut t = e.clone();
    t.data = "{\"a\":2}".to_string();
    assert!(!t.is_valid());

    let mut t = e.clone();
    t.id.push('x');
    assert!(!t.is_valid());

    let mut t = e.clone();
    t.previous_hash = "1".repeat(64);
    assert!(!t.is_valid());

    let mut t = e.clone();
    t.creator_node_id = "n2".to_string();
    assert!(!t.is_valid());

    let mut t = e.clone();
    t.timestamp = Timestamp::from_parts(1_700_000_001, 5).unwrap();
    assert!(!t.is_valid());

    let mut t = e.clone();
    t.hash = "f".repeat(64);
    assert!(!t.is_valid());
}

#[test]
fn signatures_do_not_affect_validity_and_replace_by_node() {
    let mut e = LedgerEntry::new("{}".to_string(), zeros(), "n1".to_string());
    e.add_signature("n2".to_string(), "s1".to_string());
    e.add_signature("n3".to_string(), "s2".to_string());
    e.add_signature("n2".to_string(), "s3".to_string());
    assert!(e.is_valid());
    assert_eq!(e.signatures.len(), 2);
    assert!(e.signatures.contains(&("n2".to_string(), "s3".to_string())));
    assert!(e.signatures.contains(&("n3".to_string(), "s2".to_string())));
}

#[test]
fn local_entry_id_is_creator_and_millis() {
    let ts = Timestamp::from_parts(1, 500_000_000).unwrap();
    let e = LedgerEntry::with_timestamp("{}".to_string(), zeros(), "n1".to_string(), ts);
    assert_eq!(e.id, "n1-1500");
    let early = Timestamp::from_parts(-2, 250_000_000).unwrap();
    let e = LedgerEntry::with_timestamp("{}".to_string(), zeros(), "n1".to_string(), early);
    assert_eq!(e.id, "n1--1750");
}

#[test]
fn hash_covers_id_time_data_previous_and_creator() {
    let ts = Timestamp::from_parts(0, 0).unwrap();
    let e = LedgerEntry::with_timestamp("d".to_string(), "p".to_string(), "c".to_string(), ts);
    assert_eq!(e.canonical_text(), "c-01970-01-01T00:00:00+00:00dpc");
    assert_eq!(e.hash, gsio_node::digest::sha256_hex("c-01970-01-01T00:00:00+00:00dpc"));
}

#[test]
fn reconcile_is_single_pass() {
    let mut ledger = Ledger::new("n1".to_string());
    let tip = ledger.add_entry("{}".to_string()).unwrap();
    let b = LedgerEntry::new("\"b\"".to_string(), tip.hash.clone(), "n2".to_string());
    let c = LedgerEntry::new("\"c\"".to_string(), b.hash.clone(), "n3".to_string());
    ledger.add_pending_entry(c.clone());
    ledger.add_pending_entry(b.clone());

    let linked = ledger.process_pending_entries();
    assert_eq!(linked.len(), 1);
    assert_eq!(linked[0].hash, b.hash);
    assert_eq!(ledger.get_entries().len(), 2);

    let linked = ledger.process_pending_entries();
    assert_eq!(linked.len(), 1);
    assert_eq!(linked[0].hash, c.hash);
    assert_eq!(ledger.get_entries().len(), 3);

    assert!(ledger.process_pending_entries().is_empty());
}

#[test]
fn same_creator_in_same_millisecond_means_same_id() {
    let ts = Timestamp::from_parts(9, 1_000).unwrap();
    let b = LedgerEntry::with_timestamp("\"b\"".to_string(), zeros(), "n2".to_string(), ts);
    let c = LedgerEntry::with_timestamp("\"c\"".to_string(), b.hash.clone(), "n2".to_string(), ts);
    assert_eq!(b.id, c.id);
    let mut ledger = Ledger::new("n1".to_string());
    ledger.add_pending_entry(b);
    ledger.add_pending_entry(c);
    assert!(ledger.process_pending_entries().is_empty());
}

#[test]
fn empty_ledger_links_entries_that_name_genesis() {
    let mut a = Ledger::new("a".to_string());
    let e1 = a.add_entry("{\"m\":1}".to_string()).unwrap();
    let mut b = Ledger::new("b".to_string());
    b.add_pending_entry(e1.clone());
    let linked = b.process_pending_entries();
    assert_eq!(linked.len(), 1);
    assert_eq!(b.get_entries().len(), 1);
    assert_eq!(b.get_entries()[0].hash, e1.hash);
}

#[test]
fn fork_links_one_sibling_and_strands_the_other() {
    let mut ledger = Ledger::new("n1".to_string());
    let tip = ledger.add_entry("{}".to_string()).unwrap();
    let early = Timestamp::from_parts(100, 0).unwrap();
    let late = Timestamp::from_parts(200, 0).unwrap();
    let x = LedgerEntry::with_timestamp("\"x\"".to_string(), tip.hash.clone(), "n2".to_string(), late);
    let y = LedgerEntry::with_timestamp("\"y\"".to_string(), tip.hash.clone(), "n3".to_string(), early);
    ledger.add_pending_entry(x.clone());
    ledger.add_pending_entry(y.clone());

    let linked = ledger.process_pending_entries();
    assert_eq!(linked.len(), 1);
    assert_eq!(linked[0].hash, y.hash);
    for _ in 0..3 {
        assert!(ledger.process_pending_entries().is_empty());
    }
    assert_eq!(ledger.get_entries().len(), 2);
    assert_eq!(ledger.get_entries()[1].hash, y.hash);
}

#[test]
fn equal_timestamps_prefer_the_entry_that_arrived_first() {
    let mut ledger = Ledger::new("n1".to_string());
    let same = Timestamp::from_parts(100, 0).unwrap();
    let x = LedgerEntry::with_timestamp("\"x\"".to_string(), zeros(), "n2".to_string(), same);
    let y = LedgerEntry::with_timestamp("\"y\"".to_string(), zeros(), "n3".to_string(), same);
    ledger.add_pending_entry(x.clone());
    ledger.add_pending_entry(y.clone());
    let linked = ledger.process_pending_entries();
    assert_eq!(linked.len(), 1);
    assert_eq!(linked[0].hash, x.hash);
}

#[test]
fn invalid_pending_entries_stay_pending() {
    let mut ledger = Ledger::new("n1".to_string());
    let mut bad = LedgerEntry::new("\"x\"".to_string(), zeros(), "n2".to_string());
    bad.data = "\"changed\"".to_string();
    ledger.add_pending_entry(bad);
    assert!(ledger.process_pending_entries().is_empty());
    assert!(ledger.get_entries().is_empty());
    assert!(ledger.get_last_entry().is_none());
}

#[test]
fn pending_entry_with_same_id_is_replaced() {
    let mut ledger = Ledger::new("n1".to_string());
    let ts = Timestamp::from_parts(5, 0).unwrap();
    let mut first = LedgerEntry::with_timestamp("\"x\"".to_string(), zeros(), "n2".to_string(), ts);
    first.data = "\"broken\"".to_string();
    let second = LedgerEntry::with_timestamp("\"x\"".to_string(), zeros(), "n2".to_string(), ts);
    assert_eq!(first.id, second.id);
    ledger.add_pending_entry(first);
    ledger.add_pending_entry(second.clone());
    let linked = ledger.process_pending_entries();
    assert_eq!(linked.len(), 1);
    assert_eq!(linked[0].data, "\"x\"");
    assert!(ledger.process_pending_entries().is_empty());
}

#[test]
fn known_nodes_hold_the_owner_and_ignore_repeats() {
    let mut ledger = Ledger::new("me".to_string());
    assert_eq!(ledger.get_known_nodes(), vec!["me".to_string()]);
    ledger.add_known_node("me".to_string());
    assert_eq!(ledger.get_known_nodes().len(), 1);
    ledger.add_known_node("p".to_string());
    ledger.add_known_node("p".to_string());
    assert_eq!(ledger.get_known_nodes().len(), 2);
}

#[test]
fn tip_hash_is_genesis_then_last_hash() {
    let mut ledger = Ledger::new("n1".to_string());
    assert_eq!(ledger.tip_hash(), zeros());
    let e = ledger.add_entry("{}".to_string()).unwrap();
    assert_eq!(ledger.tip_hash(), e.hash);
}

#[test]
fn rapid_submissions_get_distinct_ids() {
    let mut ledger = Ledger::new("n1".to_string());
    for k in 0..50 {
        ledger.add_entry(format!("{{\"k\":{}}}", k)).unwrap();
    }
    let entries = ledger.get_entries();
    let mut ids: Vec<&String> = entries.iter().map(|e| &e.id).collect();
    ids.sort();
    ids.dedup();
    assert_eq!(ids.len(), 50);
    for (i, e) in entries.iter().enumerate() {
        assert!(e.is_valid());
        assert!(e.id.starts_with("n1-"));
        assert!(e.signatures.is_empty());
        if i > 0 {
            assert_eq!(e.previous_hash, entries[i - 1].hash);
        }
    }
}
