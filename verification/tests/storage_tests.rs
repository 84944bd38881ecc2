use dependency_injector::{
    AnyFactory, Container, FrozenStorage, ServiceHandle, ServiceKey, ServiceStorage,
};

fn key(id: u64) -> ServiceKey {
    ServiceKey::new(id)
}

fn frozen_from(entries: Vec<(ServiceKey, AnyFactory)>, parent: Option<FrozenStorage>) -> FrozenStorage {
    let keys: Vec<u64> = entries.iter().map(|(k, _)| k.id).collect();
    let mphf = boomphf::Mphf::new(1.7, &keys);
    FrozenStorage::from_parts(mphf, entries, parent).expect("perfect hash covers the keys")
}

#[test]
fn test_frozen_storage() {
    let entries = vec![
        (key(1), AnyFactory::singleton(ServiceHandle::new(7, vec![42]))),
        (key(2), AnyFactory::singleton(ServiceHandle::new(8, vec![123]))),
        (key(3), AnyFactory::singleton(ServiceHandle::new(9, b"hello".to_vec()))),
    ];
    let frozen = frozen_from(entries, None);

    // contains
    assert!(frozen.contains(key(1)));
    assert!(frozen.contains(key(2)));
    assert!(frozen.contains(key(3)));
    assert!(!frozen.contains(key(4))); // not registered

    // resolve
    let service = frozen.resolve(key(1), 0).unwrap();
    assert_eq!(service.payload, vec![42]);

    // len
    assert_eq!(frozen.len(), 3);
}

#[test]
fn test_frozen_storage_empty() {
    let frozen = frozen_from(Vec::new(), None);

    assert!(frozen.is_empty());
    assert_eq!(frozen.len(), 0);
    assert!(!frozen.contains(key(1)));
}

#[test]
fn test_frozen_storage_chain() {
    let root = frozen_from(
        vec![(key(1), AnyFactory::singleton(ServiceHandle::new(1, b"root".to_vec())))],
        None,
    );
    let child = frozen_from(
        vec![(key(2), AnyFactory::singleton(ServiceHandle::new(2, b"child".to_vec())))],
        Some(root),
    );

    assert!(child.contains_in_chain(key(1)));
    assert!(child.contains_in_chain(key(2)));
    assert!(!child.contains_in_chain(key(3)));

    let through = child.resolve_from_chain(key(1), 0).unwrap();
    assert_eq!(through.payload, b"root".to_vec());

    // the nearest node shadows: local entries win
    let local = child.resolve_from_chain(key(2), 0).unwrap();
    assert_eq!(local.payload, b"child".to_vec());

    // a transient entry in a frozen node is recognised
    let t = frozen_from(vec![(key(5), AnyFactory::transient(b"t".to_vec()))], None);
    assert!(t.is_transient(key(5)));
    assert!(!t.is_transient(key(6)));
}

#[test]
fn test_storage_insert_and_get() {
    let mut storage = ServiceStorage::new();
    storage.insert(key(1), AnyFactory::singleton(ServiceHandle::new(5, vec![42])));

    let factory = storage.lookup(key(1)).unwrap();
    let service = factory.produce(0);
    assert_eq!(service.payload, vec![42]);
}

#[test]
fn test_storage_contains() {
    let mut storage = ServiceStorage::new();

    assert!(!storage.contains(key(1)));

    storage.insert(key(1), AnyFactory::singleton(ServiceHandle::new(5, vec![0])));

    assert!(storage.contains(key(1)));
}

#[test]
fn test_storage_remove() {
    let mut storage = ServiceStorage::new();

    storage.insert(key(1), AnyFactory::singleton(ServiceHandle::new(5, vec![0])));
    assert!(storage.contains(key(1)));

    storage.remove(key(1));
    assert!(!storage.contains(key(1)));
}

#[test]
fn test_storage_capacity_and_parent() {
    let storage = ServiceStorage::with_capacity(100);
    assert!(storage.is_empty());
    assert!(!storage.has_parent());

    let child = ServiceStorage::with_parent(0);
    assert!(child.has_parent());
    assert_eq!(child.parent_index(), Some(0));
}

#[test]
fn test_storage_type_ids_and_len() {
    let mut storage = ServiceStorage::new();
    storage.insert(key(4), AnyFactory::lazy(vec![1]));
    storage.insert(key(9), AnyFactory::transient(vec![2]));
    assert_eq!(storage.len(), 2);
    assert!(storage.is_transient(key(9)));
    assert!(!storage.is_transient(key(4)));
    assert!(!storage.is_transient(key(77)));

    let mut ids: Vec<u64> = storage.type_ids().iter().map(|k| k.id).collect();
    ids.sort();
    assert_eq!(ids, vec![4, 9]);

    storage.clear();
    assert!(storage.is_empty());
}

#[test]
fn test_storage_resolve_publishes_lazy() {
    let mut storage = ServiceStorage::new();
    storage.insert(key(1), AnyFactory::lazy(b"z".to_vec()));
    let h1 = storage.resolve(key(1), 5).unwrap();
    let h2 = storage.resolve(key(1), 6).unwrap();
    assert!(h1.same_instance(&h2));
    assert_eq!(h1.token, 5);
    assert!(storage.resolve(key(2), 7).is_none());
}

#[test]
fn test_storage_get_with_transient_flag() {
    let mut storage = ServiceStorage::new();
    storage.insert(key(1), AnyFactory::transient(vec![1]));
    storage.insert(key(2), AnyFactory::singleton(ServiceHandle::new(1, vec![2])));
    let (_, t) = storage.get_with_transient_flag(key(1)).unwrap();
    assert!(t);
    let (_, t2) = storage.get_with_transient_flag(key(2)).unwrap();
    assert!(!t2);
    assert!(storage.get_with_transient_flag(key(3)).is_none());
}

#[test]
fn test_frozen_matches_live_chain() {
    let mut c = Container::new();
    let root = c.root();
    c.singleton(root, key(1), ServiceHandle::new(1, b"root-only".to_vec()));
    c.singleton(root, key(2), ServiceHandle::new(2, b"overridden".to_vec()));

    let child = c.scope(root);
    c.singleton(child, key(2), ServiceHandle::new(3, b"child-wins".to_vec()));
    c.singleton(child, key(4), ServiceHandle::new(4, b"child-only".to_vec()));

    c.lock(child);
    c.lock(root);

    // freeze the chain root-first from the collected entries
    let frozen_root = frozen_from(c.collect_entries(root), None);
    let frozen_child = frozen_from(c.collect_entries(child), Some(frozen_root));

    for k in [1u64, 2, 4, 9] {
        let live = c.try_get(child, key(k));
        let snap = frozen_child.resolve_from_chain(key(k), 0);
        match (live, snap) {
            (Some(a), Some(b)) => {
                assert_eq!(a.token, b.token);
                assert_eq!(a.payload, b.payload);
            }
            (None, None) => {}
            _ => panic!("frozen and live disagree on key {}", k),
        }
        assert_eq!(c.contains(child, key(k)), frozen_child.contains_in_chain(key(k)));
    }

    // shadowing carries over: the child's override wins in the snapshot too
    assert_eq!(frozen_child.resolve_from_chain(key(2), 0).unwrap().payload, b"child-wins".to_vec());
}
