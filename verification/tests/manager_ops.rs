use rustics::manager::{RusticManager, ManagerError};

#[test]
fn test_create_store() {
    let mut manager = RusticManager::new();
    // create a store with infinite TTL
    manager.create_store("store0", None).unwrap();
    let store = manager.get_store_mut("store0").unwrap();
    store.set_i64("key", 5, None);
    assert_eq!(store.get_i64("key").unwrap().unwrap(), 5);
}

#[test]
fn test_get_store() {
    let mut manager = RusticManager::new();
    // create a store with infinite TTL
    manager.create_store("store0", None).unwrap();

    let mut_store = manager.get_store_mut("store0").unwrap();
    mut_store.set_i64("key", 5, None);

    let immut_store = manager.get_store("store0").unwrap();
    assert_eq!(immut_store.get_i64("key").unwrap().unwrap(), 5);
}

#[test]
fn test_remove_store() {
    let mut manager = RusticManager::new();
    manager.create_store("store0", None).unwrap();

    let store = manager.get_store_mut("store0").unwrap();
    store.set_i64("key", 5, None);
    assert_eq!(store.get_i64("key").unwrap().unwrap(), 5);

    manager.remove_store("store0");
    let store = manager.get_store_mut("store0");
    assert!(store.is_none());
}

#[test]
fn test_duplicate_store_names() {
    let mut manager = RusticManager::new();
    // create a store with infinite TTL
    manager.create_store("store0", None).unwrap();
    let second = manager.create_store("store0", None);
    assert_eq!(second, Err(ManagerError::StoreAlreadyExists));
}

#[test]
fn test_list_store_names() {
    let mut manager = RusticManager::new();
    // create a store with infinite TTL
    manager.create_store("store0", None).unwrap();
    manager.create_store("store1", None).unwrap();
    manager.create_store("store2", None).unwrap();

    let mut expected_keys: Vec<String> = manager
        .list_store_names()
        .iter()
        .map(|key| key.to_string())
        .collect();
    expected_keys.sort();
    assert_eq!(
        expected_keys,
        vec!["store0".to_owned(), "store1".to_owned(), "store2".to_owned()]
    )
}

#[test]
fn registry_duplicate_create_leaves_store_untouched() {
    let mut manager = RusticManager::new();
    manager.create_store("store0", None).unwrap();
    manager.get_store_mut("store0").unwrap().set_string("k", "v".to_string(), None);

    // A duplicate creation fails and the existing store keeps its rows.
    assert!(manager.create_store("store0", Some(10)).is_err());
    let store = manager.get_store("store0").unwrap();
    assert_eq!(store.get_string("k").unwrap().unwrap(), "v".to_string());
}

#[test]
fn registry_remove_store_on_unknown_name_is_false() {
    let mut manager = RusticManager::new();
    manager.create_store("store0", None).unwrap();
    assert_eq!(manager.remove_store("no_such_store"), false);
    assert!(manager.remove_store("store0"));
    assert_eq!(manager.remove_store("store0"), false);
}

#[test]
fn registry_sweep_all_stores() {
    let mut manager = RusticManager::new();
    manager.create_store("a", None).unwrap();
    manager.create_store("b", None).unwrap();

    let sa = manager.get_store_mut("a").unwrap();
    sa.set_string_at("k1", "v1".to_string(), Some(100), 1_000);
    sa.set_string_at("k2", "v2".to_string(), None, 1_000);
    let sb = manager.get_store_mut("b").unwrap();
    sb.set_string_at("k3", "v3".to_string(), Some(100), 1_000);

    // The sweep runs at the real clock, far past the simulated deadlines.
    manager.clear_expired_keys_in_all_stores();

    assert!(!manager.get_store("a").unwrap().contains_key("k1"));
    assert!(manager.get_store("a").unwrap().contains_key("k2"));
    assert!(!manager.get_store("b").unwrap().contains_key("k3"));
}
