use node_sync::client::{self, FetchError, FetchOutcome};
use node_sync::database::{Database, Node};
use node_sync::worker::{process_batch, tick};

fn raw(alias: &str, capacity: u64, first_seen: i64, public_key: &str) -> client::Node {
    client::Node {
        alias: alias.to_string(),
        capacity,
        first_seen,
        public_key: public_key.to_string(),
    }
}

fn find(rows: &[Node], key: &str) -> Option<usize> {
    rows.iter().position(|n| n.public_key == key)
}

#[test]
fn resolve_fetch_transport_is_an_error() {
    assert!(matches!(
        client::resolve_fetch(FetchOutcome::Transport),
        Err(FetchError::Transport)
    ));
}

#[test]
fn resolve_fetch_undecodable_is_an_empty_batch() {
    match client::resolve_fetch(FetchOutcome::Undecodable) {
        Ok(v) => assert!(v.is_empty()),
        Err(_) => panic!("an undecodable payload must not fail the tick"),
    }
}

#[test]
fn resolve_fetch_payload_passes_through() {
    let records = vec![raw("Alice", 1, 0, "02ab")];
    match client::resolve_fetch(FetchOutcome::Payload(records)) {
        Ok(v) => {
            assert_eq!(v.len(), 1);
            assert_eq!(v[0].public_key, "02ab");
        }
        Err(_) => panic!("a decoded payload must not fail the tick"),
    }
}

#[test]
fn batch_isolates_one_bad_record() {
    let mut db = Database::new();
    // The failing record's prior row.
    db.insert_node(Node {
        public_key: "03cd".to_string(),
        alias: "Old".to_string(),
        capacity: "0.5".to_string(),
        first_seen: "2015-01-01 00:00:00".to_string(),
    });
    let batch = vec![
        raw("Alice", 250_000_000, 1_600_000_000, "02ab"),
        raw("Bad", 100, 99_999_999_999_999, "03cd"),
        raw("Bob", 100_000_000, 0, "04ef"),
    ];
    let skipped = process_batch(&mut db, &batch);
    assert_eq!(skipped, 1);
    let rows = db.get_nodes();
    assert_eq!(rows.len(), 3);
    let old = find(&rows, "03cd").expect("prior row must survive");
    assert_eq!(rows[old].alias, "Old");
    assert_eq!(rows[old].capacity, "0.5");
    assert_eq!(rows[old].first_seen, "2015-01-01 00:00:00");
    let alice = find(&rows, "02ab").expect("row must be written");
    assert_eq!(rows[alice].capacity, "2.5");
    let bob = find(&rows, "04ef").expect("row must be written");
    assert_eq!(rows[bob].capacity, "1");
    assert_eq!(rows[bob].first_seen, "1970-01-01 00:00:00");
}

#[test]
fn transport_failure_abandons_the_tick() {
    let mut db = Database::new();
    db.insert_node(Node {
        public_key: "02ab".to_string(),
        alias: "Alice".to_string(),
        capacity: "2.5".to_string(),
        first_seen: "2020-09-13 12:26:40".to_string(),
    });
    let r = tick(&mut db, FetchOutcome::Transport);
    assert!(matches!(r, Err(FetchError::Transport)));
    let rows = db.get_nodes();
    assert_eq!(rows.len(), 1);
    assert_eq!(rows[0].alias, "Alice");
    // The next tick starts cleanly.
    let batch = vec![raw("Bob", 100_000_000, 0, "04ef")];
    assert!(tick(&mut db, FetchOutcome::Payload(batch)).is_ok());
    assert_eq!(db.get_nodes().len(), 2);
}

#[test]
fn undecodable_payload_leaves_store_unchanged() {
    let mut db = Database::new();
    db.insert_node(Node {
        public_key: "02ab".to_string(),
        alias: "Alice".to_string(),
        capacity: "2.5".to_string(),
        first_seen: "2020-09-13 12:26:40".to_string(),
    });
    let r = tick(&mut db, FetchOutcome::Undecodable);
    assert_eq!(r.ok(), Some(0));
    let rows = db.get_nodes();
    assert_eq!(rows.len(), 1);
    assert_eq!(rows[0].alias, "Alice");
}

#[test]
fn end_to_end_valid_record() {
    let mut db = Database::new();
    let batch = vec![raw("Alice", 250_000_000, 1_600_000_000, "02ab...")];
    let r = tick(&mut db, FetchOutcome::Payload(batch));
    assert_eq!(r.ok(), Some(0));
    let rows = db.get_nodes();
    assert_eq!(rows.len(), 1);
    assert_eq!(rows[0].public_key, "02ab...");
    assert_eq!(rows[0].alias, "Alice");
    assert_eq!(rows[0].capacity, "2.5");
    assert_eq!(rows[0].first_seen, "2020-09-13 12:26:40");
}

#[test]
fn end_to_end_invalid_record() {
    let mut db = Database::new();
    let batch = vec![raw("Bad", 100, 99_999_999_999_999, "03cd...")];
    let r = tick(&mut db, FetchOutcome::Payload(batch));
    assert_eq!(r.ok(), Some(1));
    assert!(db.get_nodes().is_empty());
}
