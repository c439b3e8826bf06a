use service_registry::identity::identity_of;
use service_registry::{As, Service, ServiceHandle};
use std::any::TypeId;
use std::sync::Arc;

struct Metrics {
    level: u16,
}

impl Service for Metrics {}

struct Tracer;

impl Service for Tracer {}

#[test]
fn a_handle_gives_the_service_back_at_its_own_type_only() {
    let metrics = Arc::new(Metrics { level: 9100 });
    let handle = ServiceHandle::new(metrics.clone());
    let back = handle.downcast::<Metrics>().expect("same type");
    assert!(Arc::ptr_eq(&back, &metrics));
    assert_eq!(back.level, 9100);
    assert!(handle.downcast::<Tracer>().is_none());
}

#[test]
fn a_handle_knows_the_identity_of_the_service_not_of_the_pointer() {
    let handle = ServiceHandle::new(Arc::new(Tracer));
    assert_eq!(handle.identity(), TypeId::of::<Tracer>());
    assert_ne!(handle.identity(), TypeId::of::<Arc<Tracer>>());
    assert_ne!(handle.identity(), TypeId::of::<Metrics>());
}

#[test]
fn a_handle_shares_the_instance() {
    let metrics = Arc::new(Metrics { level: 1 });
    assert_eq!(Arc::strong_count(&metrics), 1);
    let handle = ServiceHandle::new(metrics.clone());
    assert_eq!(Arc::strong_count(&metrics), 2);
    let back = handle.downcast::<Metrics>().unwrap();
    assert_eq!(Arc::strong_count(&metrics), 3);
    drop(handle);
    drop(back);
    assert_eq!(Arc::strong_count(&metrics), 1);
}

#[test]
fn every_value_can_be_viewed_as_itself() {
    let metrics = Metrics { level: 8080 };
    let same: &Metrics = As::<Metrics>::as_ref(&metrics);
    assert!(std::ptr::eq(same, &metrics));
    assert_eq!(same.level, 8080);
    let text: &str = As::<str>::as_ref("unsized");
    assert_eq!(text, "unsized");
}

#[test]
fn the_identity_of_a_type_is_its_type_id() {
    assert_eq!(identity_of::<Metrics>(), TypeId::of::<Metrics>());
    assert_eq!(identity_of::<Metrics>(), identity_of::<Metrics>());
    assert_ne!(identity_of::<Metrics>(), identity_of::<Tracer>());
    assert_eq!(identity_of::<str>(), TypeId::of::<str>());
    assert_eq!(ServiceHandle::new(Arc::new(Tracer)).identity(), identity_of::<Tracer>());
}
