use service_registry::{
    DependencyProvider, Module, ModuleBuilder, Service, ServiceError, ServiceRegistration,
    ServiceRegistry,
};
use std::any::TypeId;
use std::sync::Arc;

struct Pool;
struct Repository;
struct Api;

impl Service for Pool {}
impl Service for Repository {}
impl Service for Api {}

impl DependencyProvider for Pool {
    fn required_services() -> Vec<TypeId> {
        Vec::new()
    }
}

impl DependencyProvider for Repository {
    fn required_services() -> Vec<TypeId> {
        vec![TypeId::of::<Pool>()]
    }
}

impl DependencyProvider for Api {
    fn required_services() -> Vec<TypeId> {
        vec![TypeId::of::<Repository>()]
    }
}

struct Storage;

impl Module for Storage {
    fn register(&self, registry: &mut ServiceRegistry) -> Result<(), ServiceError> {
        registry.register(Arc::new(Pool))?;
        registry.register(Arc::new(Repository))
    }
}

struct Web;

impl Module for Web {
    fn register(&self, registry: &mut ServiceRegistry) -> Result<(), ServiceError> {
        registry.register(Arc::new(Api))
    }
}

fn id<T: 'static>() -> TypeId {
    TypeId::of::<T>()
}

#[test]
fn a_composite_of_nothing_registers_nothing() {
    let composite = ModuleBuilder::new().build();
    assert_eq!(composite.len(), 0);
    let mut registry = ServiceRegistry::new();
    registry.register(Arc::new(Pool)).unwrap();
    assert_eq!(composite.register(&mut registry), Ok(()));
    assert_eq!(registry.order(), vec![id::<Pool>()]);
}

#[test]
fn a_composite_registers_its_modules_in_the_order_they_were_added() {
    let mut builder = ModuleBuilder::new();
    builder.add_module(Storage);
    builder.add_module(Web);
    let composite = builder.build();
    assert_eq!(composite.len(), 2);
    let mut registry = ServiceRegistry::new();
    assert_eq!(composite.register(&mut registry), Ok(()));
    assert_eq!(registry.order(), vec![id::<Pool>(), id::<Repository>(), id::<Api>()]);
}

#[test]
fn a_composite_stops_at_the_first_module_that_fails() {
    let mut builder = ModuleBuilder::new();
    builder.add_module(Web);
    builder.add_module(Storage);
    let composite = builder.build();
    let mut registry = ServiceRegistry::new();
    assert_eq!(
        composite.register(&mut registry),
        Err(ServiceError::MissingDependency(id::<Repository>()))
    );
    assert_eq!(registry.order(), Vec::<TypeId>::new());
}

#[test]
fn what_earlier_modules_registered_stays_after_a_failure() {
    let mut builder = ModuleBuilder::new();
    builder.add_module(Storage);
    builder.add_module(Broken);
    builder.add_module(Web);
    let composite = builder.build();
    let mut registry = ServiceRegistry::new();
    assert_eq!(
        composite.register(&mut registry),
        Err(ServiceError::InitializationError("broken".to_string()))
    );
    assert_eq!(registry.order(), vec![id::<Pool>(), id::<Repository>()]);
}

struct Broken;

impl Module for Broken {
    fn register(&self, _registry: &mut ServiceRegistry) -> Result<(), ServiceError> {
        Err(ServiceError::InitializationError("broken".to_string()))
    }
}

#[test]
fn a_composite_is_a_module_and_can_be_nested() {
    let mut inner = ModuleBuilder::new();
    inner.add_module(Storage);
    let mut outer = ModuleBuilder::new();
    outer.add_module(inner.build());
    outer.add_module(Web);
    let mut registry = ServiceRegistry::new();
    assert_eq!(outer.build().register(&mut registry), Ok(()));
    assert_eq!(registry.order(), vec![id::<Pool>(), id::<Repository>(), id::<Api>()]);
}

#[test]
fn register_service_is_registration() {
    let mut registry = ServiceRegistry::new();
    assert_eq!(
        ServiceRegistration::<Repository>::register_service(&mut registry, Arc::new(Repository)),
        Err(ServiceError::MissingDependency(id::<Pool>()))
    );
    let pool = Arc::new(Pool);
    assert_eq!(
        ServiceRegistration::<Pool>::register_service(&mut registry, pool.clone()),
        Ok(())
    );
    assert_eq!(registry.order(), vec![id::<Pool>()]);
    assert!(Arc::ptr_eq(&registry.get::<Pool>().unwrap(), &pool));
}
