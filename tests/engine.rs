use mini_redis::redis::{FetchError, Redis};

#[test]
fn set_get_del_round() {
    let mut r = Redis::new();
    r.set_at("foo", "bar", 0);
    assert_eq!(r.get_at("foo", 10), Some("bar".to_string()));
    assert!(r.del("foo"));
    assert_eq!(r.get_at("foo", 10), None);
    assert!(!r.del("foo"));
}

#[test]
fn expired_key_reads_absent_and_is_removed() {
    let mut r = Redis::new();
    r.set_at("k", "v", 1000);
    assert_eq!(r.get_at("k", 999), Some("v".to_string()));
    // the instant of expiry is already past it
    assert_eq!(r.get_at("k", 1000), None);
    // the expired read removed the record: a read at an earlier instant finds nothing either
    assert_eq!(r.get_at("k", 0), None);
    assert!(!r.del("k"));
}

#[test]
fn set_after_at_counts_from_now() {
    let mut r = Redis::new();
    r.set_after_at("k", "v", 1000, 5000);
    assert_eq!(r.get_at("k", 5500), Some("v".to_string()));
    assert_eq!(r.get_at("k", 5999), Some("v".to_string()));
    assert_eq!(r.get_at("k", 6000), None);
}

#[test]
fn zero_ttl_never_expires() {
    let mut r = Redis::new();
    r.set_after_at("k", "v", 0, 5000);
    assert_eq!(r.get_at("k", u128::MAX), Some("v".to_string()));
}

#[test]
fn wall_clock_set_and_get() {
    let mut r = Redis::new();
    r.set_after("k", "v", 0);
    assert_eq!(r.get("k"), Some("v".to_string()));
    r.set_after("k", "w", 60_000);
    assert_eq!(r.get("k"), Some("w".to_string()));
}

#[test]
fn overwrite_replaces_value_and_expiry() {
    let mut r = Redis::new();
    r.set_at("k", "v", 10);
    r.set_at("k", "w", 0);
    assert_eq!(r.get_at("k", 100), Some("w".to_string()));
}

#[test]
fn subscribe_publish_fetch() {
    let mut r = Redis::new();
    let h0 = r.add_subscriber("c");
    let h1 = r.add_subscriber("d");
    let h2 = r.add_subscriber("c");
    assert_eq!((h0, h1, h2), (0, 1, 2));
    assert_eq!(r.broadcast("c", "hello"), 2);
    assert_eq!(r.broadcast("nobody", "x"), 0);
    assert_eq!(r.fetch(h0), Ok("hello".to_string()));
    assert_eq!(r.fetch(h0), Err(FetchError::Empty));
    assert_eq!(r.fetch(h1), Err(FetchError::Empty));
    assert_eq!(r.fetch(h2), Ok("hello".to_string()));
    assert_eq!(r.fetch(7), Err(FetchError::UnknownHandle));
}

#[test]
fn messages_before_subscription_are_not_seen() {
    let mut r = Redis::new();
    assert_eq!(r.broadcast("c", "early"), 0);
    let h = r.add_subscriber("c");
    r.broadcast("c", "a");
    r.broadcast("c", "b");
    assert_eq!(r.fetch(h), Ok("a".to_string()));
    assert_eq!(r.fetch(h), Ok("b".to_string()));
    assert_eq!(r.fetch(h), Err(FetchError::Empty));
}

#[test]
fn snapshot_round_trip_keeps_values_and_expiry() {
    let mut a = Redis::new();
    a.set_at("x", "1", 0);
    a.set_at("y", "2", 5000);
    a.set_at("z", "3", 10);
    let bytes = a.serialize().expect("encodes");
    let mut b = Redis::new();
    b.set_at("stale", "s", 0);
    let h = b.add_subscriber("c");
    assert!(b.deserialize(bytes));
    assert_eq!(b.get_at("x", 100), Some("1".to_string()));
    assert_eq!(b.get_at("y", 4000), Some("2".to_string()));
    assert_eq!(b.get_at("y", 5000), None);
    assert_eq!(b.get_at("z", 11), None);
    assert_eq!(b.get_at("stale", 0), None);
    // subscribers survive
    assert_eq!(b.broadcast("c", "m"), 1);
    assert_eq!(b.fetch(h), Ok("m".to_string()));
}

#[test]
fn deserialize_rejects_garbage_and_keeps_state() {
    let mut b = Redis::new();
    b.set_at("k", "v", 0);
    assert!(!b.deserialize(vec![0xc1, 0x00]));
    assert_eq!(b.get_at("k", 0), Some("v".to_string()));
}

#[test]
fn snapshot_entries_list_each_key_once() {
    let mut a = Redis::new();
    a.set_at("x", "1", 0);
    a.set_at("x", "2", 7);
    let es = a.snapshot_entries();
    assert_eq!(es, vec![("x".to_string(), "2".to_string(), Some(7))]);
    let mut b = Redis::new();
    b.restore_entries(vec![
        ("k".to_string(), "1".to_string(), None),
        ("k".to_string(), "2".to_string(), None),
    ]);
    assert_eq!(b.get_at("k", 0), Some("2".to_string()));
}

#[test]
fn new_node_changes_nothing() {
    let mut a = Redis::new();
    a.set_at("x", "1", 0);
    a.new_node();
    assert_eq!(a.get_at("x", 0), Some("1".to_string()));
}

#[test]
fn expiry_boundary_instant() {
    assert!(Redis::expired(Some(5), 5));
    assert!(!Redis::expired(Some(5), 4));
    assert!(!Redis::expired(None, u128::MAX));
    let mut r = Redis::new();
    r.set_at("k", "v", 5);
    assert_eq!(r.get_at("k", 5), None);
}
