use rustics::store::KeyValueStore;
use rustics::value_entry::ValueEntry;

// These scenarios drive the deterministic `_at` operations with explicit
// instants, so the expiry behaviour can be pinned to exact values instead of
// real sleeps.
#[test]
fn expiry_boundary_get_masks_after_deadline() {
    let mut store = KeyValueStore::new("timed", None);
    // Written at instant 1000 with a 500 ms time-to-live: deadline 1500.
    store.set_string_at("ABC", "HELLO".to_string(), Some(500), 1_000);

    // 250 ms elapsed: still visible.
    assert_eq!(store.get_string_at("ABC", 1_250).unwrap().unwrap(), "HELLO".to_string());
    // 499 ms elapsed: the last visible instant.
    assert_eq!(store.get_string_at("ABC", 1_499).unwrap().unwrap(), "HELLO".to_string());
    // Exactly at the deadline the row is masked.
    assert!(store.get_string_at("ABC", 1_500).is_none());
    // 550 ms elapsed: masked.
    assert!(store.get_string_at("ABC", 1_550).is_none());
    // Masked, but still physically present.
    assert!(store.contains_key("ABC"));
}

#[test]
fn expiry_sweep_removes_expired_rows() {
    let mut store = KeyValueStore::new("timed", None);
    store.set_string_at("one", "1".to_string(), Some(250), 1_000);
    store.set_string_at("two", "2".to_string(), Some(250), 1_000);
    store.set_string_at("three", "3".to_string(), Some(250), 1_000);

    // Immediately after creation all three keys are present.
    assert!(store.contains_key("one"));
    assert!(store.contains_key("two"));
    assert!(store.contains_key("three"));

    // A sweep before the deadline removes nothing.
    store.clear_all_expired_keys_at(1_100);
    assert!(store.contains_key("one"));

    // After 250 ms the keys are expired but still physically present.
    assert!(store.is_expired_at("one", 1_250).unwrap());
    assert!(store.contains_key("one"));
    assert!(store.contains_key("two"));
    assert!(store.contains_key("three"));

    // The sweep deletes all three.
    store.clear_all_expired_keys_at(1_250);
    assert_eq!(store.contains_key("one"), false);
    assert_eq!(store.contains_key("two"), false);
    assert_eq!(store.contains_key("three"), false);
    assert!(store.is_expired_at("one", 1_250).is_none());
}

#[test]
fn expiry_no_ttl_entry_never_expires() {
    let entry = ValueEntry::from_string("keep".to_string(), None);
    assert!(!entry.is_expired_entry(0));
    assert!(!entry.is_expired_entry(1));
    assert!(!entry.is_expired_entry(u64::MAX));

    let mut store = KeyValueStore::new("timed", None);
    store.set_string_at("k", "keep".to_string(), None, 1_000);
    assert_eq!(store.is_expired_at("k", u64::MAX), Some(false));
    assert_eq!(store.get_string_at("k", u64::MAX).unwrap().unwrap(), "keep".to_string());
}

#[test]
fn expiry_pop_consumes_expired_row() {
    let mut store = KeyValueStore::new("timed", None);
    store.set_string_at("gone", "x".to_string(), Some(100), 1_000);

    // Expired at 1200: pop yields nothing but still removes the row, unlike
    // get, which leaves it in place.
    assert!(store.get_string_at("gone", 1_200).is_none());
    assert!(store.contains_key("gone"));
    assert!(store.pop_string_at("gone", 1_200).is_none());
    assert_eq!(store.contains_key("gone"), false);
}

#[test]
fn expiry_default_ttl_precedence() {
    // Explicit time-to-live wins over the store default.
    let mut store = KeyValueStore::new("timed", Some(1_000));
    store.set_string_at("explicit", "a".to_string(), Some(10), 1_000);
    store.set_string_at("defaulted", "b".to_string(), None, 1_000);

    assert!(store.get_string_at("explicit", 1_100).is_none());
    assert_eq!(store.get_string_at("defaulted", 1_100).unwrap().unwrap(), "b".to_string());
    assert!(store.get_string_at("defaulted", 2_000).is_none());

    // With no default and no explicit value the row never expires.
    let mut open_store = KeyValueStore::new("open", None);
    open_store.set_string_at("forever", "c".to_string(), None, 1_000);
    assert_eq!(
        open_store.get_string_at("forever", u64::MAX).unwrap().unwrap(),
        "c".to_string()
    );
}

#[test]
fn expiry_overwrite_refreshes_deadline() {
    let mut store = KeyValueStore::new("timed", None);
    store.set_string_at("k", "old".to_string(), Some(100), 1_000);
    // Overwritten at a later instant with a longer time-to-live.
    store.set_string_at("k", "new".to_string(), Some(1_000), 1_050);
    assert_eq!(store.get_string_at("k", 1_500).unwrap().unwrap(), "new".to_string());
    assert!(store.get_string_at("k", 2_050).is_none());
}

#[test]
fn expiry_mutations_mask_expired_rows() {
    let mut store = KeyValueStore::new("timed", None);
    store.set_i64_at("n", 5, Some(100), 1_000);
    store.set_list_at("l", vec!["a".to_string()], Some(100), 1_000);
    store.set_hset_at("s", vec!["a".to_string()], Some(100), 1_000);
    store.set_hmap_at("m", vec![("a".to_string(), "b".to_string())], Some(100), 1_000);

    // Mutations see an expired row exactly as an absent one.
    assert!(store.incr_at("n", None, 1_200).is_none());
    assert!(store.list_pushb_at("l", "x".to_string(), 1_200).is_none());
    assert!(store.hset_add_at("s", "x".to_string(), 1_200).is_none());
    assert!(store.hmap_insert_at("m", ("x".to_string(), "y".to_string()), 1_200).is_none());

    // The rows themselves were not touched.
    assert!(store.contains_key("n"));
    assert_eq!(store.get_i64_at("n", 1_050).unwrap().unwrap(), 5);

    // Before the deadline the same mutations succeed.
    assert_eq!(store.incr_at("n", None, 1_050).unwrap().unwrap(), 6);
    assert_eq!(store.list_pushb_at("l", "x".to_string(), 1_050).unwrap().unwrap(), "x".to_string());
    assert_eq!(store.hset_add_at("s", "x".to_string(), 1_050).unwrap().unwrap(), 2);
    assert_eq!(
        store.hmap_insert_at("m", ("x".to_string(), "y".to_string()), 1_050).unwrap().unwrap(),
        2
    );
}
