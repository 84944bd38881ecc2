use dependency_injector::{
    Container, Scope, ScopeIdSource, ScopedContainer, ServiceHandle, ServiceKey,
};

fn key(id: u64) -> ServiceKey {
    ServiceKey::new(id)
}

#[test]
fn scope_test_scoped_container() {
    let mut c = Container::new();
    let root = c.root();
    c.singleton(root, key(1), ServiceHandle::new(10, b"global".to_vec()));

    let mut ids = ScopeIdSource::new();
    let scope_id = ids.fresh();
    let scoped = ScopedContainer::from_parent(&mut c, root, scope_id);
    scoped.singleton(&mut c, key(2), ServiceHandle::new(11, b"req-1".to_vec()));

    // can access both
    assert!(scoped.contains(&c, key(1)));
    assert!(scoped.contains(&c, key(2)));

    // root doesn't have the scoped service
    assert!(!c.contains(root, key(2)));
}

#[test]
fn test_scope_ids_unique() {
    let mut ids = ScopeIdSource::new();
    let s1 = ids.fresh();
    let s2 = ids.fresh();
    let s3 = ids.fresh();

    assert_ne!(s1.id(), s2.id());
    assert_ne!(s2.id(), s3.id());
}

#[test]
fn test_scope_display() {
    let scope = Scope::new(17);
    let display = scope.to_display_string();
    assert!(display.starts_with("scope-"));
    assert_eq!(display, "scope-17");
}

#[test]
fn test_scope_display_zero_and_large() {
    assert_eq!(Scope::new(0).to_display_string(), "scope-0");
    assert_eq!(Scope::new(10).to_display_string(), "scope-10");
    assert_eq!(Scope::new(987654321).to_display_string(), "scope-987654321");
}

#[test]
fn test_scoped_container_nesting() {
    let mut c = Container::new();
    let root = c.root();
    let mut ids = ScopeIdSource::new();

    let outer = ScopedContainer::from_parent(&mut c, root, ids.fresh());
    outer.singleton(&mut c, key(1), ServiceHandle::new(1, b"outer".to_vec()));

    let inner = ScopedContainer::from_scope(&mut c, &outer, ids.fresh());
    assert!(inner.contains(&c, key(1)));
    assert_eq!(inner.depth(&c), 2);
    assert_eq!(outer.depth(&c), 1);
    assert_ne!(outer.scope().id(), inner.scope().id());

    let got = inner.get(&mut c, key(1)).unwrap();
    assert_eq!(got.payload, b"outer".to_vec());
    assert!(inner.try_get(&mut c, key(9)).is_none());
}

#[test]
fn test_scoped_container_lifetimes() {
    let mut c = Container::new();
    let root = c.root();
    let mut ids = ScopeIdSource::new();
    let scoped = ScopedContainer::from_parent(&mut c, root, ids.fresh());

    scoped.lazy(&mut c, key(1), b"lz".to_vec());
    scoped.transient(&mut c, key(2), b"tr".to_vec());

    let a = scoped.get(&mut c, key(1)).unwrap();
    let b = scoped.get(&mut c, key(1)).unwrap();
    assert!(a.same_instance(&b));

    let t1 = scoped.get(&mut c, key(2)).unwrap();
    let t2 = scoped.get(&mut c, key(2)).unwrap();
    assert!(!t1.same_instance(&t2));
}
