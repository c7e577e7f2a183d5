use std::collections::VecDeque;

use rustics::store::KeyValueStore;
use rustics::value_entry::ValueEntry;

#[test]
fn surface_from_deque_round_trip() {
    let mut d: VecDeque<String> = VecDeque::new();
    d.push_back("b".to_string());
    d.push_front("a".to_string());
    let entry = ValueEntry::from_deque(d, None);
    assert_eq!(
        entry.get_value_as_list().unwrap(),
        vec!["a".to_string(), "b".to_string()]
    );
}

#[test]
fn surface_pop_set_returns_listing() {
    let mut store = KeyValueStore::new("surface", None);
    store.set_hset(
        "S",
        vec!["x".to_string(), "y".to_string(), "x".to_string()],
        None,
    );
    let mut popped = store.pop_set("S").unwrap().unwrap();
    popped.sort();
    assert_eq!(popped, vec!["x".to_string(), "y".to_string()]);
    assert_eq!(store.contains_key("S"), false);
}

#[test]
fn surface_is_expired_and_sweep_with_live_clock() {
    let mut store = KeyValueStore::new("surface", None);
    store.set_string("keep", "v".to_string(), None);
    // A deadline planted in the distant past, far below any clock reading.
    store.set_string_at("stale", "w".to_string(), Some(1), 0);

    assert_eq!(store.is_expired("keep"), Some(false));
    assert_eq!(store.is_expired("stale"), Some(true));
    assert!(store.is_expired("absent").is_none());

    store.clear_all_expired_keys();
    assert!(store.contains_key("keep"));
    assert_eq!(store.contains_key("stale"), false);
}

#[test]
fn surface_hmap_get_missing_inner_key() {
    let mut store = KeyValueStore::new("surface", None);
    store.set_hmap("M", vec![("a".to_string(), "1".to_string())], None);
    assert_eq!(store.hmap_get("M", "a".to_string()).unwrap().unwrap(), "1".to_string());
    assert!(store.hmap_get("M", "b".to_string()).is_none());
    assert!(store.hmap_get("absent", "a".to_string()).is_none());

    // A mapping read of a text row fails; so do mapping mutations.
    store.set_string("t", "x".to_string(), None);
    assert!(store.hmap_get("t", "a".to_string()).unwrap().is_err());
    assert!(store.hmap_remove("t", "a".to_string()).unwrap().is_err());
}
