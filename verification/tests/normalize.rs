use node_sync::client;
use node_sync::normalize::{capacity_string, normalize, NormalizeError, MAX_TIMESTAMP, MIN_TIMESTAMP};

fn raw(alias: &str, capacity: u64, first_seen: i64, public_key: &str) -> client::Node {
    client::Node {
        alias: alias.to_string(),
        capacity,
        first_seen,
        public_key: public_key.to_string(),
    }
}

#[test]
fn capacity_whole_and_half() {
    assert_eq!(capacity_string(250_000_000), "2.5");
}

#[test]
fn capacity_zero() {
    assert_eq!(capacity_string(0), "0");
}

#[test]
fn capacity_one_satoshi() {
    assert_eq!(capacity_string(1), "0.00000001");
}

#[test]
fn capacity_trims_trailing_zeros() {
    assert_eq!(capacity_string(100), "0.000001");
    assert_eq!(capacity_string(10_000_000), "0.1");
}

#[test]
fn capacity_exact_btc() {
    assert_eq!(capacity_string(100_000_000), "1");
    assert_eq!(capacity_string(10_000_000_000), "100");
}

#[test]
fn capacity_all_fraction_digits() {
    assert_eq!(capacity_string(123_456_789), "1.23456789");
}

#[test]
fn capacity_largest() {
    assert_eq!(capacity_string(u64::MAX), "184467440737.09551615");
}

#[test]
fn normalize_valid_record() {
    let r = raw("Alice", 250_000_000, 1_600_000_000, "02ab...");
    let n = normalize(&r).expect("timestamp is in range");
    assert_eq!(n.public_key, "02ab...");
    assert_eq!(n.alias, "Alice");
    assert_eq!(n.capacity, "2.5");
    assert_eq!(n.first_seen, "2020-09-13 12:26:40");
}

#[test]
fn normalize_epoch() {
    let r = raw("Genesis", 0, 0, "00");
    let n = normalize(&r).expect("timestamp is in range");
    assert_eq!(n.first_seen, "1970-01-01 00:00:00");
    assert_eq!(n.capacity, "0");
}

#[test]
fn normalize_out_of_range_timestamp() {
    let r = raw("Bad", 100, 99_999_999_999_999, "03cd...");
    match normalize(&r) {
        Err(NormalizeError::InvalidTimestamp(t)) => assert_eq!(t, 99_999_999_999_999),
        _ => panic!("expected an invalid-timestamp error"),
    }
}

#[test]
fn normalize_range_boundaries() {
    assert!(normalize(&raw("a", 0, MIN_TIMESTAMP, "k")).is_ok());
    assert!(normalize(&raw("a", 0, MAX_TIMESTAMP, "k")).is_ok());
    assert!(normalize(&raw("a", 0, MIN_TIMESTAMP - 1, "k")).is_err());
    assert!(normalize(&raw("a", 0, MAX_TIMESTAMP + 1, "k")).is_err());
}

#[test]
fn normalize_negative_timestamp() {
    let r = raw("Early", 1, -1, "04ef");
    let n = normalize(&r).expect("timestamp is in range");
    assert_eq!(n.first_seen, "1969-12-31 23:59:59");
}
