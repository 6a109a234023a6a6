use radis::hashmap::HashMapStorage;
use radis::storage::Storage;

#[test]
fn set_then_get_returns_value() {
    let mut store = HashMapStorage::new();
    store.set(b"k".to_vec(), b"v".to_vec());
    assert_eq!(store.get(&b"k".to_vec()), Some(b"v".to_vec()));
}

#[test]
fn get_never_set_is_absent() {
    let store = HashMapStorage::new();
    assert_eq!(store.get(&b"missing".to_vec()), None);
    assert_ne!(store.get(&b"missing".to_vec()), Some(Vec::new()));
}

#[test]
fn second_set_wins() {
    let mut store = HashMapStorage::new();
    store.set(b"k".to_vec(), b"v1".to_vec());
    store.set(b"k".to_vec(), b"v2".to_vec());
    assert_eq!(store.get(&b"k".to_vec()), Some(b"v2".to_vec()));
}

#[test]
fn disjoint_keys_all_persist() {
    let mut store = HashMapStorage::new();
    let keys: Vec<Vec<u8>> = (0..16u8).map(|i| vec![b'k', b'0' + i]).collect();
    for (i, key) in keys.iter().enumerate() {
        store.set(key.clone(), vec![i as u8]);
    }
    for (i, key) in keys.iter().enumerate() {
        assert_eq!(store.get(key), Some(vec![i as u8]));
    }
}

#[test]
fn has_reports_presence() {
    let mut store = HashMapStorage::new();
    assert!(!store.has(&b"k".to_vec()));
    store.set(b"k".to_vec(), b"v".to_vec());
    assert!(store.has(&b"k".to_vec()));
}

#[test]
fn remove_drops_only_its_key() {
    let mut store = HashMapStorage::new();
    store.set(b"a".to_vec(), b"1".to_vec());
    store.set(b"b".to_vec(), b"2".to_vec());
    store.remove(&b"a".to_vec());
    assert_eq!(store.get(&b"a".to_vec()), None);
    assert_eq!(store.get(&b"b".to_vec()), Some(b"2".to_vec()));
}

#[test]
fn clear_drops_everything() {
    let mut store = HashMapStorage::new();
    store.set(b"a".to_vec(), b"1".to_vec());
    store.set(b"b".to_vec(), b"2".to_vec());
    store.clear();
    assert_eq!(store.get(&b"a".to_vec()), None);
    assert_eq!(store.get(&b"b".to_vec()), None);
}

#[test]
fn empty_value_is_stored_not_absent() {
    let mut store = HashMapStorage::new();
    store.set(b"k".to_vec(), Vec::new());
    assert_eq!(store.get(&b"k".to_vec()), Some(Vec::new()));
}
