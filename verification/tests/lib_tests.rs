use dependency_injector::{Container, ServiceHandle, ServiceKey};

fn key(id: u64) -> ServiceKey {
    ServiceKey::new(id)
}

#[test]
fn test_singleton_registration() {
    let mut container = Container::new();
    let root = container.root();
    container.singleton(root, key(1), ServiceHandle::new(10, b"test".to_vec()));

    let db = container.get(root, key(1)).unwrap();
    assert_eq!(db.payload, b"test".to_vec());
}

#[test]
fn test_multiple_resolve_same_instance() {
    let mut container = Container::new();
    let root = container.root();
    container.singleton(root, key(1), ServiceHandle::new(10, b"test".to_vec()));

    let db1 = container.get(root, key(1)).unwrap();
    let db2 = container.get(root, key(1)).unwrap();

    // same shared instance
    assert!(db1.same_instance(&db2));
}

#[test]
fn test_transient_creates_new_instance() {
    let mut container = Container::new();
    let root = container.root();
    container.transient(root, key(2), b"ctr".to_vec());

    let c1 = container.get(root, key(2)).unwrap();
    let c2 = container.get(root, key(2)).unwrap();

    assert_ne!(c1.token, c2.token);
}

#[test]
fn test_lazy_singleton() {
    let mut container = Container::new();
    let root = container.root();
    container.lazy(root, key(3), b"lazy".to_vec());

    let first = container.get(root, key(3)).unwrap();
    // second resolve doesn't create a new instance
    let second = container.get(root, key(3)).unwrap();
    assert!(first.same_instance(&second));
    assert_eq!(first.payload, b"lazy".to_vec());
}

#[test]
fn lib_test_scoped_container() {
    let mut root_c = Container::new();
    let root = root_c.root();
    root_c.singleton(root, key(1), ServiceHandle::new(10, b"db".to_vec()));

    let child = root_c.scope(root);
    root_c.singleton(child, key(2), ServiceHandle::new(11, b"user".to_vec()));

    // child can access root services
    assert!(root_c.contains(child, key(1)));
    assert!(root_c.contains(child, key(2)));

    // root cannot access child services
    assert!(root_c.contains(root, key(1)));
    assert!(!root_c.contains(root, key(2)));
}

#[test]
fn test_not_found_error() {
    let mut container = Container::new();
    let root = container.root();
    let result = container.get(root, key(1));
    assert!(result.is_err());
}

#[test]
fn test_override_in_scope() {
    let mut c = Container::new();
    let root = c.root();
    c.singleton(root, key(1), ServiceHandle::new(10, b"production".to_vec()));

    let test_scope = c.scope(root);
    c.singleton(test_scope, key(1), ServiceHandle::new(11, b"test".to_vec()));

    // root has production
    let root_db = c.get(root, key(1)).unwrap();
    assert_eq!(root_db.payload, b"production".to_vec());

    // child has test override
    let child_db = c.get(test_scope, key(1)).unwrap();
    assert_eq!(child_db.payload, b"test".to_vec());
}
