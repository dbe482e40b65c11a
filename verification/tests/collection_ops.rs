use database::{Collection, Data, Error, Missing};

fn text(value: &str) -> Data {
    Data::String(value.to_string())
}

fn sample() -> Collection {
    let mut collection = Collection::new("test".to_string()).unwrap();
    collection.add_data("a".to_string(), text("Hello")).unwrap();
    collection.add_data("b".to_string(), Data::U8(11)).unwrap();
    collection.add_data("c".to_string(), text("Gitchub")).unwrap();
    collection
}

#[test]
fn new_collection_is_empty_and_named() {
    let collection = Collection::new("test".to_string()).unwrap();
    assert_eq!(collection.name(), "test");
    assert_eq!(collection.len(), 0);
    assert_eq!(collection.entry(0), None);
    assert!(!collection.contains_key("a"));
}

#[test]
fn new_collection_takes_a_name_of_255_bytes() {
    let collection = Collection::new("n".repeat(255)).unwrap();
    assert_eq!(collection.name().len(), 255);
}

#[test]
fn new_collection_refuses_a_name_of_256_bytes() {
    assert_eq!(Collection::new("n".repeat(256)), Err(Error::CapacityExceeded));
}

#[test]
fn new_collection_counts_bytes_not_characters() {
    // 128 two-byte characters are 256 bytes.
    assert_eq!(Collection::new("é".repeat(128)), Err(Error::CapacityExceeded));
    assert!(Collection::new("é".repeat(127)).is_ok());
}

#[test]
fn add_twice_keeps_one_entry_with_the_second_value() {
    let mut collection = Collection::new("test".to_string()).unwrap();
    assert_eq!(collection.add_data("k".to_string(), Data::I32(1)), Ok(()));
    assert_eq!(collection.add_data("k".to_string(), Data::I32(2)), Ok(()));
    assert_eq!(collection.len(), 1);
    assert_eq!(collection.get("k"), Ok(&Data::I32(2)));
    assert_eq!(collection.entry(0), Some((&"k".to_string(), &Data::I32(2))));
    assert_eq!(collection.entry(1), None);
}

#[test]
fn add_twice_equals_adding_the_second_value_once() {
    let mut twice = sample();
    twice.add_data("b".to_string(), Data::U8(1)).unwrap();
    twice.add_data("b".to_string(), Data::U8(2)).unwrap();
    let mut once = sample();
    once.add_data("b".to_string(), Data::U8(2)).unwrap();
    assert_eq!(twice, once);
}

#[test]
fn delete_of_an_absent_key_changes_nothing() {
    let mut collection = sample();
    let before = collection.clone();
    collection.delete_data("zebra".to_string());
    assert_eq!(collection, before);
    collection.delete_data("".to_string());
    assert_eq!(collection, before);
    let mut empty = Collection::new("none".to_string()).unwrap();
    empty.delete_data("a".to_string());
    assert_eq!(empty, Collection::new("none".to_string()).unwrap());
}

#[test]
fn delete_removes_only_the_key() {
    let mut collection = sample();
    collection.delete_data("b".to_string());
    assert_eq!(collection.len(), 2);
    assert_eq!(collection.get("b"), Err(Error::NotFound(Missing::Key)));
    assert_eq!(collection.get("a"), Ok(&text("Hello")));
    assert_eq!(collection.get("c"), Ok(&text("Gitchub")));
}

#[test]
fn modify_of_an_existing_key_equals_add() {
    let mut modified = sample();
    assert_eq!(modified.modify_data("c".to_string(), text("Github")), Ok(()));
    let mut added = sample();
    assert_eq!(added.add_data("c".to_string(), text("Github")), Ok(()));
    assert_eq!(modified, added);
    assert_eq!(modified.get("c"), Ok(&text("Github")));
    assert_eq!(modified.len(), 3);
}

#[test]
fn modify_of_a_new_key_adds_it() {
    let mut collection = sample();
    assert_eq!(collection.modify_data("d".to_string(), Data::I64(-4)), Ok(()));
    assert_eq!(collection.len(), 4);
    assert_eq!(collection.get("d"), Ok(&Data::I64(-4)));
}

#[test]
fn example_ends_with_two_entries() {
    let mut collection = sample();
    collection.delete_data("b".to_string());
    collection.modify_data("c".to_string(), text("Github")).unwrap();
    assert_eq!(collection.len(), 2);
    assert_eq!(collection.entry(0), Some((&"a".to_string(), &text("Hello"))));
    assert_eq!(collection.entry(1), Some((&"c".to_string(), &text("Github"))));
    assert_eq!(collection.entry(2), None);
    assert!(!collection.contains_key("b"));
    assert_eq!(collection.get("b"), Err(Error::NotFound(Missing::Key)));
}

#[test]
fn entries_are_kept_in_byte_order_of_their_keys() {
    let mut collection = Collection::new("order".to_string()).unwrap();
    for key in ["b", "", "ab", "a", "é", "B", "aa", "z"] {
        collection.add_data(key.to_string(), Data::U8(0)).unwrap();
    }
    let mut keys: Vec<String> = Vec::new();
    let mut index = 0;
    while let Some((key, _)) = collection.entry(index) {
        keys.push(key.clone());
        index += 1;
    }
    assert_eq!(keys, vec!["", "B", "a", "aa", "ab", "b", "z", "é"]);
}

#[test]
fn insertion_order_does_not_matter() {
    let mut forward = Collection::new("same".to_string()).unwrap();
    let mut backward = Collection::new("same".to_string()).unwrap();
    for number in 0..20u8 {
        forward.add_data(format!("key{}", number), Data::U8(number)).unwrap();
    }
    for number in (0..20u8).rev() {
        backward.add_data(format!("key{}", number), Data::U8(number)).unwrap();
    }
    assert_eq!(forward, backward);
}

#[test]
fn add_refuses_a_key_of_256_bytes() {
    let mut collection = sample();
    let before = collection.clone();
    assert_eq!(
        collection.add_data("k".repeat(256), Data::U8(1)),
        Err(Error::CapacityExceeded)
    );
    assert_eq!(collection, before);
    assert_eq!(collection.add_data("k".repeat(255), Data::U8(1)), Ok(()));
    assert_eq!(collection.get(&"k".repeat(255)), Ok(&Data::U8(1)));
}

#[test]
fn add_refuses_a_string_value_of_256_bytes() {
    let mut collection = sample();
    let before = collection.clone();
    assert_eq!(
        collection.add_data("a".to_string(), text(&"v".repeat(256))),
        Err(Error::CapacityExceeded)
    );
    assert_eq!(collection, before);
    assert_eq!(collection.add_data("a".to_string(), text(&"v".repeat(255))), Ok(()));
}

#[test]
fn modify_refuses_what_add_refuses_and_changes_nothing() {
    let mut collection = sample();
    let before = collection.clone();
    assert_eq!(
        collection.modify_data("a".to_string(), text(&"v".repeat(256))),
        Err(Error::CapacityExceeded)
    );
    assert_eq!(collection, before);
    assert_eq!(
        collection.modify_data("k".repeat(300), Data::U8(0)),
        Err(Error::CapacityExceeded)
    );
    assert_eq!(collection, before);
}

#[test]
fn collection_holds_255_entries_and_no_more() {
    let mut collection = Collection::new("full".to_string()).unwrap();
    for number in 0..255u32 {
        assert_eq!(collection.add_data(format!("{:03}", number), Data::U32(number)), Ok(()));
    }
    assert_eq!(collection.len(), 255);
    let before = collection.clone();
    assert_eq!(
        collection.add_data("new".to_string(), Data::U32(0)),
        Err(Error::CapacityExceeded)
    );
    assert_eq!(
        collection.modify_data("new".to_string(), Data::U32(0)),
        Err(Error::CapacityExceeded)
    );
    assert_eq!(collection, before);
    // A key that is there can still be given a new value.
    assert_eq!(collection.add_data("100".to_string(), Data::U32(7)), Ok(()));
    assert_eq!(collection.modify_data("101".to_string(), Data::U32(8)), Ok(()));
    assert_eq!(collection.len(), 255);
    assert_eq!(collection.get("100"), Ok(&Data::U32(7)));
    assert_eq!(collection.get("101"), Ok(&Data::U32(8)));
    // And room comes back when an entry leaves.
    collection.delete_data("000".to_string());
    assert_eq!(collection.add_data("new".to_string(), Data::U32(0)), Ok(()));
}

#[test]
fn get_of_a_missing_key_is_not_found() {
    let collection = sample();
    assert_eq!(collection.get("missing"), Err(Error::NotFound(Missing::Key)));
    assert_eq!(collection.get_string("missing"), Err(Error::NotFound(Missing::Key)));
}

#[test]
fn get_string_of_a_number_is_a_type_mismatch() {
    let collection = sample();
    assert_eq!(collection.get_string("b"), Err(Error::TypeMismatch));
    assert_eq!(collection.get_string("a"), Ok(&"Hello".to_string()));
}

#[test]
fn as_string_tells_strings_from_numbers() {
    assert_eq!(text("x").as_string(), Ok(&"x".to_string()));
    assert_eq!(Data::U128(1).as_string(), Err(Error::TypeMismatch));
    assert_eq!(Data::F32(0).as_string(), Err(Error::TypeMismatch));
}

#[test]
fn data_validity_is_the_string_limit() {
    assert!(text("").is_valid());
    assert!(text(&"s".repeat(255)).is_valid());
    assert!(!text(&"s".repeat(256)).is_valid());
    assert!(Data::I128(i128::MIN).is_valid());
    assert!(Data::F64(u64::MAX).is_valid());
}

#[test]
fn clones_are_equal_and_independent() {
    let source = sample();
    let mut copy = source.clone();
    assert_eq!(copy, source);
    copy.delete_data("a".to_string());
    assert_ne!(copy, source);
    assert_eq!(source.len(), 3);
    let data = text("same");
    assert_eq!(data.clone(), data);
}

#[test]
fn keys_that_differ_only_in_length_are_different_keys() {
    let mut collection = Collection::new("prefix".to_string()).unwrap();
    collection.add_data("ab".to_string(), Data::U8(2)).unwrap();
    collection.add_data("a".to_string(), Data::U8(1)).unwrap();
    collection.add_data("abc".to_string(), Data::U8(3)).unwrap();
    assert_eq!(collection.len(), 3);
    assert_eq!(collection.get("a"), Ok(&Data::U8(1)));
    assert_eq!(collection.get("ab"), Ok(&Data::U8(2)));
    assert_eq!(collection.get("abc"), Ok(&Data::U8(3)));
    assert_eq!(collection.get("abcd"), Err(Error::NotFound(Missing::Key)));
}
