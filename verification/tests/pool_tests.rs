use dependency_injector::{Container, ScopePool, ServiceHandle, ServiceKey};

fn key(id: u64) -> ServiceKey {
    ServiceKey::new(id)
}

#[test]
fn test_scope_pool_basic() {
    let mut c = Container::new();
    let root = c.root();
    c.singleton(root, key(1), ServiceHandle::new(10, b"root".to_vec()));

    // create pool with 2 pre-allocated scopes
    let mut pool = ScopePool::new(&mut c, root, 2);
    assert_eq!(pool.available_count(), 2);

    // acquire a scope
    let scope = pool.acquire(&mut c);
    assert_eq!(pool.available_count(), 1);

    // can access parent services, one level below the pool's parent
    assert!(c.contains(scope, key(1)));
    assert_eq!(c.depth(scope), 1);

    // register request-specific service
    c.singleton(scope, key(2), ServiceHandle::new(123, b"req".to_vec()));
    assert!(c.contains(scope, key(2)));

    let id = c.get(scope, key(2)).unwrap();
    assert_eq!(id.token, 123);

    // scope released back to pool
    pool.release(&mut c, scope);
    assert_eq!(pool.available_count(), 2);
}

#[test]
fn test_scope_pool_reuse() {
    let mut c = Container::new();
    let root = c.root();
    let mut pool = ScopePool::new(&mut c, root, 1);

    // first request
    {
        let scope = pool.acquire(&mut c);
        c.singleton(scope, key(2), ServiceHandle::new(1, b"one".to_vec()));
        assert!(c.contains(scope, key(2)));
        pool.release(&mut c, scope);
    }

    // second request reuses the same scope, cleared
    {
        let scope = pool.acquire(&mut c);
        // the previous registration has been cleared
        assert!(!c.contains(scope, key(2)));

        c.singleton(scope, key(2), ServiceHandle::new(2, b"two".to_vec()));
        let id = c.get(scope, key(2)).unwrap();
        assert_eq!(id.token, 2);
        pool.release(&mut c, scope);
    }
}

#[test]
fn test_scope_pool_expansion() {
    let mut c = Container::new();
    let root = c.root();
    let mut pool = ScopePool::new(&mut c, root, 1);

    // acquire more scopes than pre-allocated
    let s1 = pool.acquire(&mut c);
    let s2 = pool.acquire(&mut c); // creates a new scope

    assert_eq!(pool.available_count(), 0);

    // both work and both return to the pool
    pool.release(&mut c, s1);
    pool.release(&mut c, s2);

    assert_eq!(pool.available_count(), 2);
}

#[test]
fn test_pool_release_resets_lock() {
    let mut c = Container::new();
    let root = c.root();
    let mut pool = ScopePool::new(&mut c, root, 1);

    let scope = pool.acquire(&mut c);
    c.lock(scope);
    assert!(c.is_locked(scope));
    pool.release(&mut c, scope);

    let again = pool.acquire(&mut c);
    assert!(!c.is_locked(again));
    pool.release(&mut c, again);
}
