use dependency_injector::{
    AnyFactory, Factory, LazyFactory, ServiceHandle, SingletonFactory, TransientFactory,
};

#[test]
fn test_singleton_factory() {
    let factory = AnyFactory::singleton(ServiceHandle::new(7, vec![42]));

    let a = factory.produce(100);
    let b = factory.produce(101);

    assert_eq!(a.payload, vec![42]);
    assert!(a.same_instance(&b));
}

#[test]
fn test_lazy_factory() {
    let mut factory = LazyFactory::new(vec![5]);

    let a = factory.resolve(1);
    assert_eq!(a.payload, vec![5]);
    assert_eq!(a.token, 1);

    // the second resolution returns the published product, not a new one
    let b = factory.resolve(2);
    assert!(a.same_instance(&b));
}

#[test]
fn test_transient_factory() {
    let factory = TransientFactory::new(vec![3]);

    let a = factory.create(0);
    let b = factory.create(1);

    assert_eq!(a.token, 0);
    assert_eq!(b.token, 1);
    assert!(!a.same_instance(&b));
}

#[test]
fn test_is_transient() {
    let singleton = AnyFactory::singleton(ServiceHandle::new(1, vec![1]));
    let lazy = AnyFactory::lazy(vec![2]);
    let transient = AnyFactory::transient(vec![3]);

    assert!(!singleton.is_transient());
    assert!(!lazy.is_transient());
    assert!(transient.is_transient());
}

#[test]
fn test_factory_trait_flags() {
    let s = SingletonFactory::new(ServiceHandle::new(1, vec![1]));
    let l = LazyFactory::new(vec![2]);
    let t = TransientFactory::new(vec![3]);

    assert!(!Factory::is_transient(&s));
    assert!(!Factory::is_transient(&l));
    assert!(Factory::is_transient(&t));
}

#[test]
fn test_singleton_factory_from_arc() {
    let f = SingletonFactory::from_arc(ServiceHandle::new(9, b"shared".to_vec()));
    let h = f.resolve();
    assert_eq!(h.token, 9);
    assert_eq!(h.payload, b"shared".to_vec());
}

#[test]
fn test_any_factory_resolve_consumes_token_only_when_minting() {
    let (after, h) = AnyFactory::singleton(ServiceHandle::new(4, vec![4])).resolve(77);
    assert_eq!(h.token, 4);
    assert!(!after.consumes_token());

    let (after, h) = AnyFactory::lazy(vec![6]).resolve(77);
    assert_eq!(h.token, 77);
    // the lazy entry has published its product now
    assert!(!after.is_uncreated_lazy());
    let h2 = after.produce(99);
    assert!(h.same_instance(&h2));
}
