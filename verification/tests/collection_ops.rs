use rustics::store::KeyValueStore;

#[test]
fn public_tests_test_set_get_deque() {
    let mut store = KeyValueStore::new("main", Some(5000));
    store.set_list("ABC", vec!["X".to_string(), "Y".to_string(), "Z".to_string()], None);
    assert_eq!(
        store.get_list("ABC").unwrap().unwrap(),
        vec!["X".to_string(), "Y".to_string(), "Z".to_string()]
    );

    store.set_string("DEF", "XYZ".to_string(), None);
    assert_eq!(
        store.get_list("DEF").unwrap().unwrap(),
        vec!["X".to_string(), "Y".to_string(), "Z".to_string()]
    );
}

#[test]
fn public_tests_test_deque_methods() {
    let mut store = KeyValueStore::new("main", Some(5000));
    store.set_list("ABC", vec!["X".to_string()], None);
    assert_eq!(store.get_list("ABC").unwrap().unwrap(), vec!["X".to_string()]);
    assert_eq!(store.list_front("ABC").unwrap().unwrap(), "X".to_string());
    assert_eq!(store.list_back("ABC").unwrap().unwrap(), "X".to_string());

    assert_eq!(store.list_pushb("ABC", "Y".to_string()).unwrap().unwrap(), "Y".to_string());
    assert_eq!(
        store.get_list("ABC").unwrap().unwrap(),
        vec!["X".to_string(), "Y".to_string()]
    );

    assert_eq!(store.list_pushf("ABC", "A".to_string()).unwrap().unwrap(), "A".to_string());
    assert_eq!(
        store.get_list("ABC").unwrap().unwrap(),
        vec!["A".to_string(), "X".to_string(), "Y".to_string()]
    );
    assert_eq!(store.list_size("ABC").unwrap().unwrap(), 3);
    assert_eq!(store.list_front("ABC").unwrap().unwrap(), "A".to_string());
    assert_eq!(store.list_back("ABC").unwrap().unwrap(), "Y".to_string());

    assert_eq!(store.list_popf("ABC").unwrap().unwrap(), "A".to_string());
    assert_eq!(
        store.get_list("ABC").unwrap().unwrap(),
        vec!["X".to_string(), "Y".to_string()]
    );
    assert_eq!(store.list_size("ABC").unwrap().unwrap(), 2);
    assert_eq!(store.list_front("ABC").unwrap().unwrap(), "X".to_string());
    assert_eq!(store.list_back("ABC").unwrap().unwrap(), "Y".to_string());

    assert_eq!(store.list_popb("ABC").unwrap().unwrap(), "Y".to_string());
    assert_eq!(store.get_list("ABC").unwrap().unwrap(), vec!["X".to_string()]);
    assert_eq!(store.list_size("ABC").unwrap().unwrap(), 1);

    assert_eq!(store.list_popb("ABC").unwrap().unwrap(), "X".to_string());
    assert_eq!(store.list_size("ABC").unwrap().unwrap(), 0);
}

#[test]
fn tests_test_set_get_deque() {
    let mut store = KeyValueStore::new("new_store", None);
    store.set_list("ABC", vec!["X".to_string(), "Y".to_string(), "Z".to_string()], None);
    assert_eq!(
        store.get_list("ABC").unwrap().unwrap(),
        vec!["X".to_string(), "Y".to_string(), "Z".to_string()]
    );

    store.set_string("DEF", "XYZ".to_string(), None);
    assert_eq!(
        store.get_list("DEF").unwrap().unwrap(),
        vec!["X".to_string(), "Y".to_string(), "Z".to_string()]
    );

    assert_eq!(
        store.pop_list("DEF").unwrap().unwrap(),
        vec!["X".to_string(), "Y".to_string(), "Z".to_string()]
    );
}

#[test]
fn tests_test_deque_methods() {
    let mut store = KeyValueStore::new("new_store", None);
    store.set_list("ABC", vec!["X".to_string()], None);
    assert_eq!(store.get_list("ABC").unwrap().unwrap(), vec!["X".to_string()]);
    assert_eq!(store.list_front("ABC").unwrap().unwrap(), "X".to_string());
    assert_eq!(store.list_back("ABC").unwrap().unwrap(), "X".to_string());

    assert_eq!(store.list_pushb("ABC", "Y".to_string()).unwrap().unwrap(), "Y".to_string());
    assert_eq!(
        store.get_list("ABC").unwrap().unwrap(),
        vec!["X".to_string(), "Y".to_string()]
    );

    assert_eq!(store.list_pushf("ABC", "A".to_string()).unwrap().unwrap(), "A".to_string());
    assert_eq!(
        store.get_list("ABC").unwrap().unwrap(),
        vec!["A".to_string(), "X".to_string(), "Y".to_string()]
    );
    assert_eq!(store.list_size("ABC").unwrap().unwrap(), 3);
    assert_eq!(store.list_front("ABC").unwrap().unwrap(), "A".to_string());
    assert_eq!(store.list_back("ABC").unwrap().unwrap(), "Y".to_string());

    assert_eq!(store.list_popf("ABC").unwrap().unwrap(), "A".to_string());
    assert_eq!(
        store.get_list("ABC").unwrap().unwrap(),
        vec!["X".to_string(), "Y".to_string()]
    );
    assert_eq!(store.list_size("ABC").unwrap().unwrap(), 2);
    assert_eq!(store.list_front("ABC").unwrap().unwrap(), "X".to_string());
    assert_eq!(store.list_back("ABC").unwrap().unwrap(), "Y".to_string());

    assert_eq!(store.list_popb("ABC").unwrap().unwrap(), "Y".to_string());
    assert_eq!(store.get_list("ABC").unwrap().unwrap(), vec!["X".to_string()]);
    assert_eq!(store.list_size("ABC").unwrap().unwrap(), 1);

    assert_eq!(store.list_popb("ABC").unwrap().unwrap(), "X".to_string());
    assert_eq!(store.list_size("ABC").unwrap().unwrap(), 0);
}

#[test]
fn public_tests_test_set_get_hset() {
    let mut store = KeyValueStore::new("main", Some(5000));
    store.set_hset(
        "ABC",
        vec![
            "X".to_string(),
            "Y".to_string(),
            "Z".to_string(),
            "Y".to_string(),
            "Z".to_string(),
        ],
        None,
    );

    let mut sorted_list_in_store = store.get_list("ABC").unwrap().unwrap();
    sorted_list_in_store.sort();
    assert_eq!(sorted_list_in_store, vec!["X".to_string(), "Y".to_string(), "Z".to_string()]);

    store.set_string("DEF", "XYZYZYZ".to_string(), None);
    let mut char_set = store.get_hset("DEF").unwrap().unwrap();
    char_set.sort();
    assert_eq!(char_set, vec!["X".to_string(), "Y".to_string(), "Z".to_string()]);
}

#[test]
fn tests_test_set_get_hset() {
    let mut store = KeyValueStore::new("new_store", None);
    store.set_hset(
        "ABC",
        vec![
            "X".to_string(),
            "Y".to_string(),
            "Z".to_string(),
            "Y".to_string(),
            "Z".to_string(),
        ],
        None,
    );

    let mut sorted_list_in_store = store.get_list("ABC").unwrap().unwrap();
    sorted_list_in_store.sort();
    assert_eq!(sorted_list_in_store, vec!["X".to_string(), "Y".to_string(), "Z".to_string()]);

    store.set_string("DEF", "XYZYZYZ".to_string(), None);
    let mut char_set = store.get_hset("DEF").unwrap().unwrap();
    char_set.sort();
    assert_eq!(char_set, vec!["X".to_string(), "Y".to_string(), "Z".to_string()]);

    let mut popped = store.pop_hset("DEF").unwrap().unwrap();
    popped.sort();
    assert_eq!(popped, vec!["X".to_string(), "Y".to_string(), "Z".to_string()]);
}

#[test]
fn public_tests_test_add_remove_hset() {
    let mut store = KeyValueStore::new("main", Some(5000));
    store.set_hset(
        "ABC",
        vec![
            "X".to_string(),
            "Y".to_string(),
            "Z".to_string(),
            "Y".to_string(),
            "Z".to_string(),
        ],
        None,
    );

    assert_eq!(store.hset_size("ABC").unwrap().unwrap(), 3);

    assert_eq!(store.hset_add("ABC", "Q".to_string()).unwrap().unwrap(), 4);
    assert!(store.hset_contains("ABC", "Q".to_string()).unwrap().unwrap());

    assert!(!store.hset_contains("ABC", "A".to_string()).unwrap().unwrap());
    assert_eq!(store.hset_remove("ABC", "A".to_string()).unwrap().unwrap(), 4);

    assert_eq!(store.hset_remove("ABC", "X".to_string()).unwrap().unwrap(), 3);

    let mut sorted_list_in_store = store.get_list("ABC").unwrap().unwrap();
    sorted_list_in_store.sort();
    assert_eq!(sorted_list_in_store, vec!["Q".to_string(), "Y".to_string(), "Z".to_string()]);
}

#[test]
fn tests_test_add_remove_hset() {
    let mut store = KeyValueStore::new("new_store", None);
    store.set_hset(
        "ABC",
        vec![
            "X".to_string(),
            "Y".to_string(),
            "Z".to_string(),
            "Y".to_string(),
            "Z".to_string(),
        ],
        None,
    );

    assert_eq!(store.hset_size("ABC").unwrap().unwrap(), 3);

    assert_eq!(store.hset_add("ABC", "Q".to_string()).unwrap().unwrap(), 4);
    assert!(store.hset_contains("ABC", "Q".to_string()).unwrap().unwrap());

    assert!(!store.hset_contains("ABC", "A".to_string()).unwrap().unwrap());
    assert_eq!(store.hset_remove("ABC", "A".to_string()).unwrap().unwrap(), 4);

    assert_eq!(store.hset_remove("ABC", "X".to_string()).unwrap().unwrap(), 3);

    let mut sorted_list_in_store = store.get_list("ABC").unwrap().unwrap();
    sorted_list_in_store.sort();
    assert_eq!(sorted_list_in_store, vec!["Q".to_string(), "Y".to_string(), "Z".to_string()]);
}

#[test]
fn public_tests_test_hset_union_intersection_difference() {
    let mut store = KeyValueStore::new("main", Some(5000));
    store.set_hset(
        "ABC",
        vec![
            "X".to_string(),
            "Y".to_string(),
            "Z".to_string(),
            "A".to_string(),
            "B".to_string(),
            "B".to_string(),
        ],
        None,
    );

    store.set_hset(
        "DEF",
        vec![
            "A".to_string(),
            "B".to_string(),
            "C".to_string(),
            "D".to_string(),
            "E".to_string(),
        ],
        None,
    );

    assert_eq!(store.hset_size("ABC").unwrap().unwrap(), 5);
    assert_eq!(store.hset_size("DEF").unwrap().unwrap(), 5);

    let mut intersection = store.hset_intersection("ABC", "DEF").unwrap().unwrap();
    intersection.sort();

    let mut union = store.hset_union("ABC", "DEF").unwrap().unwrap();
    union.sort();

    let mut difference = store.hset_difference("ABC", "DEF").unwrap().unwrap();
    difference.sort();

    assert_eq!(intersection, vec!["A", "B"]);
    assert_eq!(union, vec!["A", "B", "C", "D", "E", "X", "Y", "Z"]);
    assert_eq!(difference, vec!["X", "Y", "Z"]);
}

#[test]
fn tests_test_hset_union_intersection_difference() {
    let mut store = KeyValueStore::new("new_store", None);
    store.set_hset(
        "ABC",
        vec![
            "X".to_string(),
            "Y".to_string(),
            "Z".to_string(),
            "A".to_string(),
            "B".to_string(),
            "B".to_string(),
        ],
        None,
    );

    store.set_hset(
        "DEF",
        vec![
            "A".to_string(),
            "B".to_string(),
            "C".to_string(),
            "D".to_string(),
            "E".to_string(),
        ],
        None,
    );

    assert_eq!(store.hset_size("ABC").unwrap().unwrap(), 5);
    assert_eq!(store.hset_size("DEF").unwrap().unwrap(), 5);

    let mut intersection = store.hset_intersection("ABC", "DEF").unwrap().unwrap();
    intersection.sort();

    let mut union = store.hset_union("ABC", "DEF").unwrap().unwrap();
    union.sort();

    let mut difference = store.hset_difference("ABC", "DEF").unwrap().unwrap();
    difference.sort();

    assert_eq!(intersection, vec!["A", "B"]);
    assert_eq!(union, vec!["A", "B", "C", "D", "E", "X", "Y", "Z"]);
    assert_eq!(difference, vec!["X", "Y", "Z"]);
}

#[test]
fn test_insert_get_hmap() {
    let mut store = KeyValueStore::new("new_store", None);
    store.set_hmap("ABC", vec![], None);

    assert_eq!(store.hmap_insert("ABC", ("A".to_owned(), "B".to_owned())).unwrap().unwrap(), 1);
    assert_eq!(store.hmap_size("ABC").unwrap().unwrap(), 1);

    assert_eq!(store.hmap_insert("ABC", ("B".to_owned(), "C".to_owned())).unwrap().unwrap(), 2);
    assert_eq!(store.hmap_size("ABC").unwrap().unwrap(), 2);

    assert!(store.hmap_contains_key("ABC", "B".to_owned()).unwrap().unwrap());
    assert_eq!(store.hmap_contains_key("ABC", "C".to_owned()).unwrap().unwrap(), false);
}

#[test]
fn test_hmap_keys_values_items() {
    let mut store = KeyValueStore::new("new_store", None);
    store.set_hmap("ABC", vec![], None);

    assert_eq!(store.hmap_insert("ABC", ("A".to_owned(), "B".to_owned())).unwrap().unwrap(), 1);
    assert_eq!(store.hmap_size("ABC").unwrap().unwrap(), 1);

    assert_eq!(store.hmap_insert("ABC", ("B".to_owned(), "C".to_owned())).unwrap().unwrap(), 2);
    assert_eq!(store.hmap_size("ABC").unwrap().unwrap(), 2);

    assert_eq!(store.hmap_insert("ABC", ("C".to_owned(), "A".to_owned())).unwrap().unwrap(), 3);
    assert_eq!(store.hmap_size("ABC").unwrap().unwrap(), 3);

    let keys = store.hmap_keys("ABC").unwrap().unwrap();
    let mut sorted_keys = keys.to_owned();
    sorted_keys.sort();

    let values = store.hmap_values("ABC").unwrap().unwrap();
    let values_in_order_of_keys: Vec<String> = keys
        .iter()
        .map(|item| store.hmap_get("ABC", item.to_owned()).unwrap().unwrap())
        .collect();

    let mut items = store.hmap_items("ABC").unwrap().unwrap();
    items.sort();

    assert_eq!(sorted_keys, vec!["A", "B", "C"]);
    assert_eq!(values, values_in_order_of_keys);
    assert_eq!(
        items,
        vec![
            ("A".to_owned(), "B".to_owned()),
            ("B".to_owned(), "C".to_owned()),
            ("C".to_owned(), "A".to_owned()),
        ]
    );
}

#[test]
fn test_remove_hmap() {
    let mut store = KeyValueStore::new("new_store", None);
    store.set_hmap("ABC", vec![], None);

    assert_eq!(store.hmap_insert("ABC", ("A".to_owned(), "B".to_owned())).unwrap().unwrap(), 1);
    assert_eq!(store.hmap_size("ABC").unwrap().unwrap(), 1);

    assert_eq!(store.hmap_insert("ABC", ("B".to_owned(), "C".to_owned())).unwrap().unwrap(), 2);
    assert_eq!(store.hmap_size("ABC").unwrap().unwrap(), 2);

    assert_eq!(
        store.hmap_remove("ABC", "A".to_owned()).unwrap().unwrap(),
        ("A".to_owned(), "B".to_owned())
    );
    assert_eq!(store.hmap_size("ABC").unwrap().unwrap(), 1);

    assert_eq!(store.hmap_contains_key("ABC", "A".to_owned()).unwrap().unwrap(), false);

    assert!(store.hmap_remove("ABC", "C".to_owned()).is_none());
    assert_eq!(store.hmap_contains_key("ABC", "C".to_owned()).unwrap().unwrap(), false);
}
