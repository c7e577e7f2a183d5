use rustics::store::KeyValueStore;

#[test]
fn public_tests_test_contains() {
    let mut store = KeyValueStore::new("main", Some(0));
    store.set_string("ABC", "HELLO".to_string(), Some(5000));
    assert!(store.contains_key("ABC"));
    assert_ne!(store.contains_key("ABC"), false);
}

#[test]
fn public_tests_test_set_get_string() {
    let mut store = KeyValueStore::new("main", Some(0));
    store.set_string("ABC", "HELLO".to_string(), Some(5000));
    assert_eq!(store.get_string("ABC").unwrap().unwrap(), "HELLO".to_string());

    assert_eq!(store.get_bytes("ABC").unwrap().unwrap(), "HELLO".as_bytes().to_vec());

    // Can set bytes and fetch it back as string.
    store.set_bytes("bytes", "HELLO".as_bytes().to_vec(), Some(5000));
    assert_eq!(store.get_string("bytes").unwrap().unwrap(), "HELLO".to_string());

    // Can set string and fetch it back as int.
    store.set_string("integer", "64".to_string(), Some(5000));
    assert_eq!(store.get_i64("integer").unwrap().unwrap(), 64);
}

#[test]
fn public_tests_test_get_set_i64() {
    let mut store = KeyValueStore::new("main", Some(0));
    store.set_i64("ABC", 999, Some(5000));
    assert_eq!(store.get_i64("ABC").unwrap().unwrap(), 999);

    assert_eq!(store.get_string("ABC").unwrap().unwrap(), "999".to_string());

    assert_eq!(store.get_bytes("ABC").unwrap().unwrap(), i64::to_le_bytes(999));
}

#[test]
fn public_tests_test_pop_string() {
    let mut store = KeyValueStore::new("main", Some(0));
    store.set_string("ABC", "HELLO".to_string(), Some(5000));
    assert_eq!(store.pop_string("ABC").unwrap().unwrap(), "HELLO".to_string());
}

#[test]
fn public_tests_test_set_get_bytes() {
    let mut store = KeyValueStore::new("main", Some(0));
    store.set_bytes("ABC", "HELLO".as_bytes().to_vec(), Some(5000));
    assert_eq!(store.get_bytes("ABC").unwrap().unwrap(), "HELLO".as_bytes().to_vec());
}

#[test]
fn public_tests_test_pop_bytes() {
    let mut store = KeyValueStore::new("main", Some(0));
    store.set_bytes("ABC", "HELLO".as_bytes().to_vec(), Some(5000));
    assert_eq!(store.pop_bytes("ABC").unwrap().unwrap(), "HELLO".as_bytes().to_vec());
}

#[test]
fn public_tests_test_get_set_binary_data() {
    let local_struct_instance: (f64, String) = (3.1415, "Hey there".to_string());
    let mut store = KeyValueStore::new("main", Some(0));
    let bin_code = bincode::serialize(&local_struct_instance).unwrap();
    store.set_bytes("ABC", bin_code, Some(5000));

    if let Some(vec_val) = store.pop_bytes("ABC") {
        let new_local_struct: (f64, String) = bincode::deserialize(&vec_val.unwrap()).unwrap();
        let struct_to_compare: (f64, String) = (3.1415, "Hey there".to_string());
        assert_eq!(new_local_struct.0, struct_to_compare.0);
        assert_eq!(new_local_struct.1, struct_to_compare.1);
    }
}

#[test]
fn public_tests_test_remove_key() {
    let mut store = KeyValueStore::new("main", Some(0));
    store.set_string("ABC", "HELLO".to_string(), Some(5000));
    store.remove("ABC");
    assert!(store.get_string("ABC").is_none());
    assert_eq!(store.contains_key("ABC"), false);
}

#[test]
fn public_tests_test_clear_store() {
    let mut store = KeyValueStore::new("main", Some(5000));
    store.set_string("ABC", "HELLO".to_string(), None);
    store.set_string("XYZ", "HELLO".to_string(), None);
    store.set_string("DEF", "HELLO".to_string(), None);
    store.clear();

    assert!(store.get_string("ABC").is_none());
    assert!(store.get_string("DEF").is_none());
    assert!(store.get_string("XYZ").is_none());
}

#[test]
fn public_tests_test_incr_decr() {
    let mut store = KeyValueStore::new("main", Some(5000));
    store.set_string("ABC", "68".to_string(), None);
    assert_eq!(store.incr("ABC", None).unwrap().unwrap(), 69);
    assert_eq!(store.get_i64("ABC").unwrap().unwrap(), 69);

    assert_eq!(store.decr("ABC", Some(8)).unwrap().unwrap(), 61);
    assert_eq!(store.get_string("ABC").unwrap().unwrap(), "61".to_string());

    store.set_string("xyz", "ab123x".to_string(), None);
    assert!(store.incr("xyz", Some(10)).unwrap().is_err())
}

#[test]
fn tests_test_set_get_string() {
    let mut store = KeyValueStore::new("new_store", None);
    store.set_string("ABC", "HELLO".to_string(), Some(5000));
    assert_eq!(store.get_string("ABC").unwrap().unwrap(), "HELLO".to_string());

    assert_eq!(store.get_bytes("ABC").unwrap().unwrap(), "HELLO".as_bytes().to_vec());

    store.set_bytes("bytes", "HELLO".as_bytes().to_vec(), Some(5000));
    assert_eq!(store.get_string("bytes").unwrap().unwrap(), "HELLO".to_string());

    store.set_string("integer", "64".to_string(), Some(5000));
    assert_eq!(store.get_i64("integer").unwrap().unwrap(), 64);
}

#[test]
fn tests_test_pop_string() {
    let mut store = KeyValueStore::new("new_store", None);
    store.set_string("ABC", "HELLO".to_string(), Some(5000));
    assert_eq!(store.pop_string("ABC").unwrap().unwrap(), "HELLO".to_string());
}

#[test]
fn tests_test_contains() {
    let mut store = KeyValueStore::new("new_store", None);
    store.set_string("ABC", "HELLO".to_string(), Some(5000));
    assert!(store.contains_key("ABC"));
    assert_ne!(store.contains_key("ABC"), false);
}

#[test]
fn tests_test_remove_key() {
    let mut store = KeyValueStore::new("new_store", None);
    store.set_string("ABC", "HELLO".to_string(), Some(5000));
    store.remove("ABC");
    assert!(store.get_string("ABC").is_none());
    assert_eq!(store.contains_key("ABC"), false);
}

#[test]
fn tests_test_clear_store() {
    let mut store = KeyValueStore::new("new_store", None);
    store.set_string("ABC", "HELLO".to_string(), None);
    store.set_string("XYZ", "HELLO".to_string(), None);
    store.set_string("DEF", "HELLO".to_string(), None);
    store.clear();

    assert!(store.get_string("ABC").is_none());
    assert!(store.get_string("DEF").is_none());
    assert!(store.get_string("XYZ").is_none());
}

#[test]
fn tests_test_get_set_i64() {
    let mut store = KeyValueStore::new("new_store", None);
    store.set_i64("ABC", 999, Some(5000));
    assert_eq!(store.get_i64("ABC").unwrap().unwrap(), 999);

    assert_eq!(store.get_string("ABC").unwrap().unwrap(), "999".to_string());

    assert_eq!(store.get_bytes("ABC").unwrap().unwrap(), i64::to_le_bytes(999));

    assert_eq!(store.pop_i64("ABC").unwrap().unwrap(), 999);
}

#[test]
fn tests_test_incr_decr() {
    let mut store = KeyValueStore::new("new_store", None);
    store.set_string("ABC", "68".to_string(), None);
    assert_eq!(store.incr("ABC", None).unwrap().unwrap(), 69);
    assert_eq!(store.get_i64("ABC").unwrap().unwrap(), 69);

    assert_eq!(store.decr("ABC", Some(8)).unwrap().unwrap(), 61);
    assert_eq!(store.get_string("ABC").unwrap().unwrap(), "61".to_string());

    store.set_string("xyz", "ab123x".to_string(), None);
    assert!(store.incr("xyz", Some(10)).unwrap().is_err())
}

#[test]
fn tests_test_set_get_bytes() {
    let mut store = KeyValueStore::new("new_store", None);
    store.set_bytes("ABC", "HELLO".as_bytes().to_vec(), Some(5000));
    assert_eq!(store.get_bytes("ABC").unwrap().unwrap(), "HELLO".as_bytes().to_vec());
}

#[test]
fn tests_test_pop_bytes() {
    let mut store = KeyValueStore::new("new_store", None);
    store.set_bytes("ABC", "HELLO".as_bytes().to_vec(), Some(5000));
    assert_eq!(store.pop_bytes("ABC").unwrap().unwrap(), "HELLO".as_bytes().to_vec());
}

#[test]
fn tests_test_get_set_binary_data() {
    let local_struct_instance: (f64, String) = (3.1415, "Hey there".to_string());
    let mut store = KeyValueStore::new("new_store", None);
    let bin_code = bincode::serialize(&local_struct_instance).unwrap();
    store.set_bytes("ABC", bin_code, Some(5000));

    if let Some(vec_val) = store.pop_bytes("ABC") {
        let new_local_struct: (f64, String) = bincode::deserialize(&vec_val.unwrap()).unwrap();
        let struct_to_compare: (f64, String) = (3.1415, "Hey there".to_string());
        assert_eq!(new_local_struct.0, struct_to_compare.0);
        assert_eq!(new_local_struct.1, struct_to_compare.1);
    }
}
