use gud::error::GudError;
use gud::hash::{content_hash, ContentHash};
use gud::store::{object_path, plan_put, shard_dir, ObjectStore, PutStep};

#[test]
fn put_then_get() {
    let mut store = ObjectStore::new();
    let h = content_hash(b"abc");
    assert!(!store.contains(&h));
    assert!(store.put(h, vec![1, 2, 3]));
    assert!(store.contains(&h));
    assert_eq!(store.get(&h), Ok(vec![1, 2, 3]));
    assert_eq!(store.hashes(), vec![h]);
}

#[test]
fn put_is_idempotent() {
    let mut once = ObjectStore::new();
    let mut twice = ObjectStore::new();
    let h = content_hash(b"abc");
    once.put(h, vec![9, 9]);
    assert!(twice.put(h, vec![9, 9]));
    assert!(!twice.put(h, vec![9, 9]));
    assert_eq!(once.get(&h), twice.get(&h));
    assert_eq!(once.hashes(), twice.hashes());
}

#[test]
fn first_put_wins() {
    let mut store = ObjectStore::new();
    let h = ContentHash { value: 7 };
    store.put(h, vec![1]);
    store.put(h, vec![2]);
    assert_eq!(store.get(&h), Ok(vec![1]));
}

#[test]
fn missing_object() {
    let store = ObjectStore::new();
    assert_eq!(store.get(&ContentHash { value: 1 }), Err(GudError::ObjectNotFound));
    assert!(store.hashes().is_empty());
}

#[test]
fn hashes_in_order_of_storing() {
    let mut store = ObjectStore::new();
    let a = ContentHash { value: 3 };
    let b = ContentHash { value: 1 };
    store.put(a, vec![]);
    store.put(b, vec![]);
    store.put(a, vec![]);
    assert_eq!(store.hashes(), vec![a, b]);
}

#[test]
fn object_locations() {
    let h = ContentHash { value: 0xab23456789abcdef0011223344556677 };
    assert_eq!(shard_dir(&h), ".gud/objects/ab");
    assert_eq!(object_path(&h), ".gud/objects/ab/ab23456789abcdef0011223344556677");
}

#[test]
fn put_plans() {
    assert_eq!(plan_put(true, true), PutStep::Skip);
    assert_eq!(plan_put(true, false), PutStep::Skip);
    assert_eq!(plan_put(false, true), PutStep::Write { create_shard: false });
    assert_eq!(plan_put(false, false), PutStep::Write { create_shard: true });
}
