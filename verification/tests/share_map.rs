use fold::arena::Handle;
use fold::object::Object;
use fold::share_map::{ShareMap, ShareMapKey};

fn words(name: &'static str) -> ShareMapKey<usize> {
    ShareMapKey::new(name)
}

fn texts(name: &'static str) -> ShareMapKey<Vec<u8>> {
    ShareMapKey::new(name)
}

#[test]
fn what_is_inserted_is_found() {
    let mut map = ShareMap::new();
    assert_eq!(map.get(words("base")), None);
    map.insert(words("base"), 0x1000);
    assert_eq!(map.get(words("base")), Some(&0x1000));
    assert!(map.holds_name(words("base")));
    assert!(!map.holds_name(words("other")));
}

#[test]
fn a_key_of_another_type_finds_nothing() {
    let mut map = ShareMap::new();
    map.insert(words("k"), 7);
    assert_eq!(map.get(texts("k")), None);
    assert_eq!(map.get(words("k")), Some(&7));
}

#[test]
fn insert_replaces_whatever_the_type() {
    let mut map = ShareMap::new();
    map.insert(words("k"), 7);
    map.insert(texts("k"), b"seven".to_vec());
    assert_eq!(map.get(words("k")), None);
    assert_eq!(map.get(texts("k")), Some(&b"seven".to_vec()));
    map.insert(texts("k"), b"eight".to_vec());
    assert_eq!(map.get(texts("k")), Some(&b"eight".to_vec()));
}

#[test]
fn names_do_not_disturb_each_other() {
    let mut map = ShareMap::new();
    map.insert(words("a"), 1);
    map.insert(words("b"), 2);
    map.insert(words("a"), 3);
    assert_eq!(map.get(words("a")), Some(&3));
    assert_eq!(map.get(words("b")), Some(&2));
    assert_eq!(map.get(words("ab")), None);
    assert_eq!(map.get(words("")), None);
}

#[test]
fn get_mut_writes_through() {
    let mut map = ShareMap::new();
    map.insert(words("n"), 1);
    map.insert(words("m"), 5);
    *map.get_mut(words("n")).unwrap() += 41;
    assert_eq!(map.get(words("n")), Some(&42));
    assert_eq!(map.get(words("m")), Some(&5));
    assert!(map.get_mut(texts("n")).is_none());
    assert!(map.get_mut(words("absent")).is_none());
    assert_eq!(map.get(words("n")), Some(&42));
}

#[test]
fn insert_or_update_inserts_then_updates() {
    let mut map = ShareMap::new();
    let key: ShareMapKey<Vec<u8>> = ShareMapKey::new("list");
    assert!(map.insert_or_update(key, || vec![1u8], |v: &mut Vec<u8>| v.push(9)));
    assert_eq!(map.get(key), Some(&vec![1u8]));
    assert!(map.insert_or_update(key, || vec![1u8], |v: &mut Vec<u8>| v.push(2)));
    assert_eq!(map.get(key), Some(&vec![1u8, 2]));
}

#[test]
fn insert_or_update_refuses_another_type() {
    let mut map = ShareMap::new();
    map.insert(words("list"), 3);
    let key: ShareMapKey<Vec<u8>> = ShareMapKey::new("list");
    assert!(!map.insert_or_update(key, || vec![1u8], |v: &mut Vec<u8>| v.push(2)));
    assert_eq!(map.get(words("list")), Some(&3));
    assert_eq!(map.get(key), None);
}

#[test]
fn handles_are_stored() {
    let mut map = ShareMap::new();
    let key: ShareMapKey<Handle<Object>> = ShareMapKey::new("initial-elf");
    map.insert(key, Handle::new(4));
    assert_eq!(map.get(key).map(|h| h.idx()), Some(4));
    assert_eq!(key.key, "initial-elf");
}
