use rustics::value_entry::ValueEntry;
use rustics::errors::{ValueError, TypeConversionError, TypeConversionImpossible};
use rustics::store::KeyValueStore;
use rustics::numbers::{i64_to_string, parse_i64_chars, i64_to_le_bytes, u8_to_string};

#[test]
fn value_integer_coercions() {
    let entry = ValueEntry::from_i64(999, None);
    assert_eq!(entry.get_value_as_i64().unwrap(), 999);
    assert_eq!(entry.get_value_as_string().unwrap(), "999".to_string());
    assert_eq!(entry.get_value_as_bytes().unwrap(), i64::to_le_bytes(999).to_vec());
    // An integer has no sequence, set or mapping reading.
    assert_eq!(
        entry.get_value_as_list().unwrap_err(),
        ValueError::TypeConversionImpossible(TypeConversionImpossible::IncompatibleTypes)
    );
    assert_eq!(
        entry.get_value_as_hset().unwrap_err(),
        ValueError::TypeConversionImpossible(TypeConversionImpossible::IncompatibleTypes)
    );
    assert_eq!(
        entry.get_value_as_hmap().unwrap_err(),
        ValueError::TypeConversionImpossible(TypeConversionImpossible::IncompatibleTypes)
    );
}

#[test]
fn value_text_coercions() {
    let entry = ValueEntry::from_string("-42".to_string(), None);
    assert_eq!(entry.get_value_as_i64().unwrap(), -42);
    assert_eq!(entry.get_value_as_bytes().unwrap(), "-42".as_bytes().to_vec());

    let tokens = ValueEntry::from_string("abc".to_string(), None);
    assert_eq!(
        tokens.get_value_as_list().unwrap(),
        vec!["a".to_string(), "b".to_string(), "c".to_string()]
    );
    assert_eq!(
        tokens.get_value_as_i64().unwrap_err(),
        ValueError::TypeConversionError(TypeConversionError::ParseIntError)
    );

    // The set reading of text keeps one token per distinct character, at its
    // first occurrence.
    let chars = ValueEntry::from_string("XYZYZYZ".to_string(), None);
    assert_eq!(
        chars.get_value_as_hset().unwrap(),
        vec!["X".to_string(), "Y".to_string(), "Z".to_string()]
    );
}

#[test]
fn value_bytes_coercions() {
    let entry = ValueEntry::from_bytes(vec![72, 73], None);
    assert_eq!(entry.get_value_as_string().unwrap(), "HI".to_string());
    assert_eq!(
        entry.get_value_as_list().unwrap(),
        vec!["72".to_string(), "73".to_string()]
    );

    // Bytes that are not well-formed UTF-8 fail the text reading.
    let bad = ValueEntry::from_bytes(vec![0xff, 0xfe], None);
    assert_eq!(
        bad.get_value_as_string().unwrap_err(),
        ValueError::TypeConversionError(TypeConversionError::FromUtf8Error)
    );
    // And bytes have no integer reading at all.
    assert_eq!(
        bad.get_value_as_i64().unwrap_err(),
        ValueError::TypeConversionImpossible(TypeConversionImpossible::IncompatibleTypes)
    );
}

#[test]
fn value_collection_coercions() {
    let seq_entry = ValueEntry::from_list(
        vec!["a".to_string(), "b".to_string(), "a".to_string()],
        None,
    );
    // The set reading of a sequence drops duplicates.
    assert_eq!(
        seq_entry.get_value_as_hset().unwrap(),
        vec!["a".to_string(), "b".to_string()]
    );
    // The mapping reading counts occurrences, rendered in decimal.
    assert_eq!(
        seq_entry.get_value_as_hmap().unwrap(),
        vec![("a".to_string(), "2".to_string()), ("b".to_string(), "1".to_string())]
    );

    let set_entry = ValueEntry::from_hset(vec!["x".to_string(), "x".to_string()], None);
    assert_eq!(set_entry.get_value_as_list().unwrap(), vec!["x".to_string()]);
    assert_eq!(
        set_entry.get_value_as_hmap().unwrap(),
        vec![("x".to_string(), "1".to_string())]
    );

    // Mutable access never coerces: a sequence is not a set or a mapping.
    let mut strict = ValueEntry::from_list(vec!["a".to_string()], None);
    assert_eq!(
        strict.get_value_as_mut_hset().unwrap_err(),
        ValueError::TypeConversionImpossible(TypeConversionImpossible::AsMutable)
    );
    assert_eq!(
        strict.get_value_as_mut_hmap().unwrap_err(),
        ValueError::TypeConversionImpossible(TypeConversionImpossible::AsMutable)
    );
    assert!(strict.get_value_as_mut_deque().is_ok());
    assert_eq!(
        strict.get_value_as_deque().unwrap().iter().cloned().collect::<Vec<String>>(),
        vec!["a".to_string()]
    );

    // Shared reference access to the sequence is just as strict.
    let text = ValueEntry::from_string("abc".to_string(), None);
    assert_eq!(
        text.get_value_as_deque().unwrap_err(),
        ValueError::TypeConversionImpossible(TypeConversionImpossible::AsReference)
    );

    let map_entry = ValueEntry::from_hashmap(
        vec![
            ("k".to_string(), "v1".to_string()),
            ("k".to_string(), "v2".to_string()),
            ("m".to_string(), "w".to_string()),
        ],
        None,
    );
    // A repeated key keeps its first position and takes the latest value.
    assert_eq!(
        map_entry.get_value_as_hmap().unwrap(),
        vec![("k".to_string(), "v2".to_string()), ("m".to_string(), "w".to_string())]
    );
}

#[test]
fn value_decimal_parse_and_print() {
    assert_eq!(i64_to_string(0), "0".to_string());
    assert_eq!(i64_to_string(-1), "-1".to_string());
    assert_eq!(i64_to_string(i64::MAX), "9223372036854775807".to_string());
    assert_eq!(i64_to_string(i64::MIN), "-9223372036854775808".to_string());
    assert_eq!(u8_to_string(255), "255".to_string());

    let parse = |s: &str| parse_i64_chars(&s.chars().collect());
    assert_eq!(parse("0"), Some(0));
    assert_eq!(parse("+5"), Some(5));
    assert_eq!(parse("-5"), Some(-5));
    assert_eq!(parse("9223372036854775807"), Some(i64::MAX));
    assert_eq!(parse("-9223372036854775808"), Some(i64::MIN));
    // Overflow, stray characters, lone signs and empty input are rejected,
    // exactly as str::parse::<i64> rejects them.
    assert_eq!(parse("9223372036854775808"), None);
    assert_eq!(parse("-9223372036854775809"), None);
    assert_eq!(parse("184467440737095516150"), None);
    assert_eq!(parse("12a"), None);
    assert_eq!(parse("+"), None);
    assert_eq!(parse("-"), None);
    assert_eq!(parse(""), None);
    assert_eq!(parse(" 1"), None);
    assert_eq!(parse("1 "), None);

    // The parser agrees with the standard library on every case above.
    for s in ["0", "+5", "-5", "68", "9223372036854775808", "12a", "", "+", "- 1"] {
        assert_eq!(parse(s), s.parse::<i64>().ok());
    }

    assert_eq!(i64_to_le_bytes(999), i64::to_le_bytes(999).to_vec());
    assert_eq!(i64_to_le_bytes(-1), i64::to_le_bytes(-1).to_vec());
    assert_eq!(i64_to_le_bytes(i64::MIN), i64::to_le_bytes(i64::MIN).to_vec());
}

#[test]
fn value_incr_overflow_is_an_error() {
    let mut store = KeyValueStore::new("numbers", None);
    store.set_i64("big", i64::MAX, None);
    let r = store.incr("big", Some(1)).unwrap();
    assert_eq!(
        r.unwrap_err(),
        ValueError::TypeConversionError(TypeConversionError::IntegerOverflow)
    );
    // The failed increment left the value untouched.
    assert_eq!(store.get_i64("big").unwrap().unwrap(), i64::MAX);

    // An amount above the signed range is rejected before any lookup.
    let r2 = store.incr("big", Some(u64::MAX)).unwrap();
    assert_eq!(
        r2.unwrap_err(),
        ValueError::TypeConversionError(TypeConversionError::TryFromIntError)
    );
}

#[test]
fn value_set_algebra_with_missing_and_mistyped_operands() {
    let mut store = KeyValueStore::new("sets", None);
    store.set_hset("A", vec!["x".to_string(), "y".to_string()], None);

    // A missing operand contributes the empty set.
    let mut union = store.hset_union("A", "missing").unwrap().unwrap();
    union.sort();
    assert_eq!(union, vec!["x".to_string(), "y".to_string()]);
    assert_eq!(store.hset_intersection("missing", "A").unwrap().unwrap(), Vec::<String>::new());
    let mut diff = store.hset_difference("A", "missing").unwrap().unwrap();
    diff.sort();
    assert_eq!(diff, vec!["x".to_string(), "y".to_string()]);

    // A present operand of an incompatible kind fails the whole operation.
    store.set_i64("N", 7, None);
    assert_eq!(
        store.hset_union("A", "N").unwrap().unwrap_err(),
        ValueError::TypeConversionImpossible(TypeConversionImpossible::IncompatibleTypes)
    );
    assert_eq!(
        store.hset_intersection("N", "A").unwrap().unwrap_err(),
        ValueError::TypeConversionImpossible(TypeConversionImpossible::IncompatibleTypes)
    );
}

#[test]
fn value_list_ops_require_a_sequence() {
    let mut store = KeyValueStore::new("lists", None);
    store.set_string("t", "text".to_string(), None);
    assert_eq!(
        store.list_pushb("t", "x".to_string()).unwrap().unwrap_err(),
        ValueError::TypeConversionImpossible(TypeConversionImpossible::AsMutable)
    );
    assert_eq!(
        store.list_front("t").unwrap().unwrap_err(),
        ValueError::TypeConversionImpossible(TypeConversionImpossible::AsReference)
    );

    // Pops on an empty sequence yield nothing while the key stays.
    store.set_list("empty", vec![], None);
    assert!(store.list_popf("empty").is_none());
    assert!(store.list_popb("empty").is_none());
    assert!(store.list_front("empty").is_none());
    assert!(store.list_back("empty").is_none());
    assert!(store.contains_key("empty"));
    assert_eq!(store.list_size("empty").unwrap().unwrap(), 0);

    // Absent keys yield nothing at all.
    assert!(store.list_pushb("absent", "x".to_string()).is_none());
    assert!(store.incr("absent", None).is_none());
    assert!(store.hset_add("absent", "x".to_string()).is_none());
    assert!(store.hmap_insert("absent", ("a".to_string(), "b".to_string())).is_none());
}
