use ooga_booga::{Storage, StoragePointer};

fn key(text: &str) -> String {
    text.to_string()
}

#[test]
fn a_new_store_is_empty() {
    let storage = Storage::new();
    assert!(storage.keys().is_empty());
    assert_eq!(storage.get(&key("/total-ooga")), None);
}

#[test]
fn set_then_get_returns_the_bytes() {
    let mut storage = Storage::new();
    storage.set(key("a"), vec![1, 2, 3]);
    assert_eq!(storage.get(&key("a")), Some(&vec![1u8, 2, 3]));
    assert_eq!(storage.get(&key("b")), None);
}

#[test]
fn set_replaces_the_whole_value() {
    let mut storage = Storage::new();
    storage.set(key("a"), vec![1, 2, 3]);
    storage.set(key("b"), vec![9]);
    storage.set(key("a"), vec![4]);
    assert_eq!(storage.get(&key("a")), Some(&vec![4u8]));
    assert_eq!(storage.get(&key("b")), Some(&vec![9u8]));
    assert_eq!(storage.keys().len(), 2);
}

#[test]
fn keys_lists_each_key_once() {
    let mut storage = Storage::new();
    storage.set(key("x"), vec![]);
    storage.set(key("y"), vec![1]);
    storage.set(key("x"), vec![2]);
    storage.set(key(""), vec![3]);
    let mut keys = storage.keys();
    keys.sort();
    assert_eq!(keys, vec![key(""), key("x"), key("y")]);
}

#[test]
fn keys_are_told_apart_exactly() {
    let mut storage = Storage::new();
    storage.set(key("/ooga-balance/a"), vec![1]);
    storage.set(key("/ooga-balance/A"), vec![2]);
    storage.set(key("/ooga-balance/a "), vec![3]);
    assert_eq!(storage.get(&key("/ooga-balance/a")), Some(&vec![1u8]));
    assert_eq!(storage.get(&key("/ooga-balance/A")), Some(&vec![2u8]));
    assert_eq!(storage.get(&key("/ooga-balance/a ")), Some(&vec![3u8]));
    assert_eq!(storage.get(&key("/ooga-balance/")), None);
}

#[test]
fn pointer_names_its_key() {
    let pointer = StoragePointer::from_keyword("/total-ooga");
    assert_eq!(pointer.key(), "/total-ooga");
}

#[test]
fn pointer_reads_zero_from_an_absent_key() {
    let storage = Storage::new();
    let pointer = StoragePointer::from_keyword("/total-ooga");
    assert_eq!(pointer.get_value(&storage), 0);
}

#[test]
fn pointer_writes_sixteen_little_endian_bytes() {
    let mut storage = Storage::new();
    let pointer = StoragePointer::from_keyword("/total-ooga");
    pointer.set_value(&mut storage, 0x0102);
    let mut expected = vec![0u8; 16];
    expected[0] = 2;
    expected[1] = 1;
    assert_eq!(storage.get(&key("/total-ooga")), Some(&expected));
    assert_eq!(pointer.get_value(&storage), 0x0102);
}

#[test]
fn pointer_set_replaces_the_value() {
    let mut storage = Storage::new();
    let pointer = StoragePointer::from_keyword("k");
    pointer.set_value(&mut storage, 7);
    pointer.set_value(&mut storage, u128::MAX);
    assert_eq!(pointer.get_value(&storage), u128::MAX);
    assert_eq!(storage.keys().len(), 1);
}

#[test]
fn pointer_reads_a_truncated_value_as_zero() {
    let mut storage = Storage::new();
    let pointer = StoragePointer::from_keyword("k");
    pointer.set_value(&mut storage, 12345);
    assert_eq!(pointer.get_value(&storage), 12345);
    let mut damaged = storage.get(&key("k")).unwrap().clone();
    damaged.truncate(15);
    storage.set(key("k"), damaged);
    assert_eq!(pointer.get_value(&storage), 0);
}

#[test]
fn pointer_reads_the_first_sixteen_bytes_of_a_longer_value() {
    let mut storage = Storage::new();
    let mut bytes = vec![0u8; 20];
    bytes[0] = 3;
    bytes[16] = 0xff;
    storage.set(key("k"), bytes);
    assert_eq!(StoragePointer::from_keyword("k").get_value(&storage), 3);
}

#[test]
fn pointers_to_different_keys_do_not_interfere() {
    let mut storage = Storage::new();
    let a = StoragePointer::from_keyword("a");
    let b = StoragePointer::from_keyword("b");
    a.set_value(&mut storage, 1);
    b.set_value(&mut storage, 2);
    assert_eq!(a.get_value(&storage), 1);
    assert_eq!(b.get_value(&storage), 2);
}
