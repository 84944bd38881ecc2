use dependency_injector::{Container, DiError, ServiceHandle, ServiceKey};

fn key(id: u64) -> ServiceKey {
    ServiceKey::new(id)
}

#[test]
fn test_singleton() {
    let mut container = Container::new();
    let root = container.root();
    container.singleton(root, key(1), ServiceHandle::new(10, b"test".to_vec()));

    let s1 = container.get(root, key(1)).unwrap();
    let s2 = container.get(root, key(1)).unwrap();

    assert_eq!(s1.payload, b"test".to_vec());
    assert!(s1.same_instance(&s2));
}

#[test]
fn test_lazy() {
    let mut container = Container::new();
    let root = container.root();
    container.lazy(root, key(1), b"lazy".to_vec());

    let s = container.get(root, key(1)).unwrap();
    assert_eq!(s.payload, b"lazy".to_vec());

    // the product was created exactly once: the second resolution returns
    // the same instance
    let s2 = container.get(root, key(1)).unwrap();
    assert!(s.same_instance(&s2));
}

#[test]
fn test_transient() {
    let mut container = Container::new();
    let root = container.root();
    container.transient(root, key(1), b"counter".to_vec());

    let c1 = container.get(root, key(1)).unwrap();
    let c2 = container.get(root, key(1)).unwrap();

    assert_ne!(c1.token, c2.token);
}

#[test]
fn test_scope_inheritance() {
    let mut c = Container::new();
    let root = c.root();
    c.singleton(root, key(1), ServiceHandle::new(10, b"root".to_vec()));

    let child = c.scope(root);
    c.singleton(child, key(2), ServiceHandle::new(11, b"child".to_vec()));

    // child sees both
    assert!(c.contains(child, key(1)));
    assert!(c.contains(child, key(2)));

    // root only sees its own
    assert!(c.contains(root, key(1)));
    assert!(!c.contains(root, key(2)));
}

#[test]
fn test_scope_override() {
    let mut c = Container::new();
    let root = c.root();
    c.singleton(root, key(1), ServiceHandle::new(10, b"root".to_vec()));

    let child = c.scope(root);
    c.singleton(child, key(1), ServiceHandle::new(11, b"child".to_vec()));

    let root_service = c.get(root, key(1)).unwrap();
    let child_service = c.get(child, key(1)).unwrap();

    assert_eq!(root_service.payload, b"root".to_vec());
    assert_eq!(child_service.payload, b"child".to_vec());
}

#[test]
fn container_test_not_found() {
    let mut c = Container::new();
    let root = c.root();
    let result = c.get(root, key(9));
    assert!(result.is_err());
    assert_eq!(result.unwrap_err(), DiError::NotFound { key: key(9) });
}

#[test]
fn test_lock() {
    let mut c = Container::new();
    let root = c.root();
    assert!(!c.is_locked(root));

    c.lock(root);
    assert!(c.is_locked(root));
}

#[test]
fn test_deep_parent_chain() {
    // 4-level hierarchy: root -> middle1 -> middle2 -> leaf
    let mut c = Container::new();
    let root = c.root();
    c.singleton(root, key(1), ServiceHandle::new(10, vec![1]));

    let middle1 = c.scope(root);
    c.singleton(middle1, key(2), ServiceHandle::new(11, vec![2]));

    let middle2 = c.scope(middle1);
    // no service in middle2

    let leaf = c.scope(middle2);
    c.singleton(leaf, key(4), ServiceHandle::new(12, vec![4]));

    // leaf should be able to access all ancestor services
    assert!(c.contains(leaf, key(1)), "should find root service in leaf");
    assert!(c.contains(leaf, key(2)), "should find middle service in leaf");
    assert!(c.contains(leaf, key(4)), "should find leaf service in leaf");

    // verify resolution works
    let root_svc = c.get(leaf, key(1)).unwrap();
    assert_eq!(root_svc.payload, vec![1]);

    let middle_svc = c.get(leaf, key(2)).unwrap();
    assert_eq!(middle_svc.payload, vec![2]);

    let leaf_svc = c.get(leaf, key(4)).unwrap();
    assert_eq!(leaf_svc.payload, vec![4]);

    // middle2 should also access ancestor services
    assert!(c.contains(middle2, key(1)));
    assert!(c.contains(middle2, key(2)));
    assert!(!c.contains(middle2, key(4))); // leaf service not in parent
}

#[test]
fn test_clear_keeps_parent() {
    let mut c = Container::new();
    let root = c.root();
    c.singleton(root, key(1), ServiceHandle::new(10, b"root".to_vec()));

    let child = c.scope(root);
    c.singleton(child, key(2), ServiceHandle::new(11, b"child".to_vec()));

    c.clear(child);

    // the child's own entry is gone, the parent's stays resolvable from it
    assert!(!c.contains(child, key(2)));
    assert!(c.contains(child, key(1)));
    let through_child = c.get(child, key(1)).unwrap();
    assert_eq!(through_child.payload, b"root".to_vec());
    assert!(c.contains(root, key(1)));
}

#[test]
fn test_lock_keeps_resolution() {
    let mut c = Container::new();
    let root = c.root();
    c.singleton(root, key(1), ServiceHandle::new(10, b"svc".to_vec()));

    c.lock(root);

    assert!(c.contains(root, key(1)));
    let s = c.get(root, key(1)).unwrap();
    assert_eq!(s.payload, b"svc".to_vec());
    assert_eq!(s.token, 10);
}

#[test]
fn test_remove_local_entry() {
    let mut c = Container::new();
    let root = c.root();
    c.singleton(root, key(1), ServiceHandle::new(10, vec![1]));

    assert!(c.remove(root, key(1)));
    assert!(!c.contains(root, key(1)));
    assert!(!c.remove(root, key(1)));
}

#[test]
fn test_len_and_is_empty() {
    let mut c = Container::new();
    let root = c.root();
    assert!(c.is_empty(root));
    assert_eq!(c.len(root), 0);

    c.singleton(root, key(1), ServiceHandle::new(10, vec![1]));
    c.lazy(root, key(2), vec![2]);
    c.transient(root, key(3), vec![3]);

    assert_eq!(c.len(root), 3);
    assert!(!c.is_empty(root));

    // re-registering the same key does not grow the count
    c.singleton(root, key(1), ServiceHandle::new(11, vec![9]));
    assert_eq!(c.len(root), 3);
}

#[test]
fn test_registered_types_lists_keys() {
    let mut c = Container::new();
    let root = c.root();
    c.singleton(root, key(3), ServiceHandle::new(10, vec![1]));
    c.lazy(root, key(7), vec![2]);

    let mut ids: Vec<u64> = c.registered_types(root).iter().map(|k| k.id).collect();
    ids.sort();
    assert_eq!(ids, vec![3, 7]);
}

#[test]
fn test_try_get_and_aliases() {
    let mut c = Container::new();
    let root = c.root();
    assert!(c.try_get(root, key(1)).is_none());
    assert!(c.try_resolve(root, key(1)).is_none());

    c.singleton(root, key(1), ServiceHandle::new(10, b"x".to_vec()));
    assert!(c.try_get(root, key(1)).is_some());
    let r = c.resolve(root, key(1)).unwrap();
    assert_eq!(r.token, 10);
    assert!(c.has(root, key(1)));
}

#[test]
fn test_warm_and_clear_cache() {
    let mut c = Container::new();
    let root = c.root();
    c.singleton(root, key(1), ServiceHandle::new(10, b"hot".to_vec()));

    c.warm_cache(root, key(1));
    let s1 = c.get(root, key(1)).unwrap();
    assert_eq!(s1.payload, b"hot".to_vec());

    c.clear_cache();
    let s2 = c.get(root, key(1)).unwrap();
    assert!(s1.same_instance(&s2));
}

#[test]
fn test_cache_sees_reregistration() {
    let mut c = Container::new();
    let root = c.root();
    c.singleton(root, key(1), ServiceHandle::new(10, b"old".to_vec()));
    let s1 = c.get(root, key(1)).unwrap();
    assert_eq!(s1.payload, b"old".to_vec());

    // the cache is invalidated on registration, so the override is seen
    c.singleton(root, key(1), ServiceHandle::new(11, b"new".to_vec()));
    let s2 = c.get(root, key(1)).unwrap();
    assert_eq!(s2.payload, b"new".to_vec());
    assert!(!s1.same_instance(&s2));
}

#[test]
fn test_depth_counts_levels() {
    let mut c = Container::new();
    let root = c.root();
    assert_eq!(c.depth(root), 0);
    let child = c.scope(root);
    assert_eq!(c.depth(child), 1);
    let grand = c.scope(child);
    assert_eq!(c.depth(grand), 2);
}

#[test]
fn test_with_capacity_starts_empty() {
    let mut c = Container::with_capacity(100);
    let root = c.root();
    assert!(c.is_empty(root));
    c.singleton(root, key(1), ServiceHandle::new(10, vec![1]));
    assert_eq!(c.len(root), 1);
}

#[test]
fn test_config_override_scenario() {
    // root registers a config with url "a"; the child overrides it with
    // url "b"; each scope resolves its own value
    let mut c = Container::new();
    let root = c.root();
    c.singleton(root, key(5), ServiceHandle::new(20, b"a".to_vec()));

    let child = c.scope(root);
    c.singleton(child, key(5), ServiceHandle::new(21, b"b".to_vec()));

    assert_eq!(c.get(root, key(5)).unwrap().payload, b"a".to_vec());
    assert_eq!(c.get(child, key(5)).unwrap().payload, b"b".to_vec());
}

#[test]
fn test_transient_counter_scenario() {
    // a transient backed by an incrementing source: three sequential
    // resolutions yield three distinct, increasing identities
    let mut c = Container::new();
    let root = c.root();
    c.transient(root, key(6), b"ctr".to_vec());

    let a = c.get(root, key(6)).unwrap();
    let b = c.get(root, key(6)).unwrap();
    let d = c.get(root, key(6)).unwrap();

    assert!(a.token < b.token);
    assert!(b.token < d.token);
    assert_ne!(a.token, d.token);
}

#[test]
fn test_error_constructors() {
    assert_eq!(DiError::not_found(key(1)), DiError::NotFound { key: key(1) });
    assert_eq!(DiError::creation_failed(key(2)), DiError::CreationFailed { key: key(2) });
    assert_eq!(DiError::already_registered(key(3)), DiError::AlreadyRegistered { key: key(3) });
    assert_eq!(DiError::circular(key(4)), DiError::CircularDependency { key: key(4) });
}

#[test]
fn test_batch_registration() {
    let mut c = Container::new();
    let root = c.root();
    c.register_batch()
        .singleton(key(1), ServiceHandle::new(10, vec![42]))
        .singleton(key(2), ServiceHandle::new(11, b"test".to_vec()))
        .lazy(key(3), b"lazy".to_vec())
        .done(&mut c, root);

    assert!(c.contains(root, key(1)));
    assert!(c.contains(root, key(2)));
    assert!(c.contains(root, key(3)));

    let a = c.get(root, key(1)).unwrap();
    assert_eq!(a.payload, vec![42]);
}

#[test]
fn test_batch_later_wins() {
    let mut c = Container::new();
    let root = c.root();
    dependency_injector::BatchBuilder::new()
        .singleton(key(1), ServiceHandle::new(1, b"first".to_vec()))
        .singleton(key(1), ServiceHandle::new(2, b"second".to_vec()))
        .transient(key(2), b"t".to_vec())
        .done(&mut c, root);

    assert_eq!(c.get(root, key(1)).unwrap().payload, b"second".to_vec());
    let t1 = c.get(root, key(2)).unwrap();
    let t2 = c.get(root, key(2)).unwrap();
    assert!(!t1.same_instance(&t2));
}

#[test]
fn test_register_aliases() {
    let mut c = Container::new();
    let root = c.root();
    c.register(root, key(1), ServiceHandle::new(10, b"inst".to_vec()));
    c.register_factory(root, key(2), b"fact".to_vec());
    c.register_by_id(root, key(3), ServiceHandle::new(12, b"byid".to_vec()));

    assert_eq!(c.get(root, key(1)).unwrap().payload, b"inst".to_vec());
    let f1 = c.get(root, key(2)).unwrap();
    let f2 = c.get(root, key(2)).unwrap();
    assert!(f1.same_instance(&f2));
    assert_eq!(c.get(root, key(3)).unwrap().token, 12);

    let child = c.create_scope(root);
    assert!(c.contains(child, key(1)));
}
