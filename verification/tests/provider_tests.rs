use dependency_injector::{Lifetime, ProviderRegistration, ServiceHandle, ServiceKey};

#[test]
fn test_lifetime_default_and_eq() {
    assert_eq!(Lifetime::default(), Lifetime::Singleton);
    assert_ne!(Lifetime::Lazy, Lifetime::Transient);
    let scoped = Lifetime::Scoped;
    assert_eq!(scoped, Lifetime::Scoped);
}

#[test]
fn test_provider_registration() {
    let reg = ProviderRegistration::new(ServiceKey::new(42), "Database");
    assert_eq!(reg.key.id, 42);
    assert_eq!(reg.service_name, "Database");

    let reg2 = ProviderRegistration::singleton(ServiceKey::new(7), "Cache");
    assert_eq!(reg2.key.id, 7);
    assert_eq!(reg2.service_name, "Cache");
}

#[test]
fn test_service_handle_identity() {
    let h = ServiceHandle::new(3, b"abc".to_vec());
    let d = h.duplicate();
    assert!(h.same_instance(&d));
    assert_eq!(d.payload, b"abc".to_vec());

    let other = ServiceHandle::new(4, b"abc".to_vec());
    assert!(!h.same_instance(&other));
}
