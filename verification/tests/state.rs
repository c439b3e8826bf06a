use actix_web::web::Data;
use service_registry::{AppState, DependencyProvider, Service, ServiceError, ServiceRegistry};
use std::any::TypeId;
use std::sync::Arc;

struct Config {
    name: &'static str,
}

struct Session;

impl Service for Config {}
impl Service for Session {}

impl DependencyProvider for Config {
    fn required_services() -> Vec<TypeId> {
        Vec::new()
    }
}

fn state_with(config: Arc<Config>) -> AppState {
    let mut registry = ServiceRegistry::new();
    registry.register(config).unwrap();
    AppState::new(registry)
}

#[test]
fn the_state_finds_what_the_registry_holds() {
    let config = Arc::new(Config { name: "app" });
    let state = state_with(config.clone());
    let found = state.get::<Config>().expect("registered");
    assert!(Arc::ptr_eq(&found, &config));
    assert_eq!(found.name, "app");
    assert!(state.get::<Session>().is_none());
}

#[test]
fn the_state_of_an_empty_registry_finds_nothing() {
    let state = AppState::new(ServiceRegistry::new());
    assert!(state.get::<Config>().is_none());
    assert!(matches!(
        state.require::<Config>(),
        Err(ServiceError::ServiceNotFound(key)) if key == TypeId::of::<Config>()
    ));
}

#[test]
fn require_on_the_state_names_the_absent_identity() {
    let config = Arc::new(Config { name: "app" });
    let state = state_with(config.clone());
    assert!(Arc::ptr_eq(&state.require::<Config>().unwrap(), &config));
    match state.require::<Session>() {
        Err(error) => assert_eq!(error, ServiceError::ServiceNotFound(TypeId::of::<Session>())),
        Ok(_) => panic!("no session is registered"),
    }
}

#[test]
fn clones_of_the_state_share_one_registry() {
    let config = Arc::new(Config { name: "app" });
    let state = state_with(config.clone());
    let before = Arc::strong_count(&config);
    let copy = state.clone();
    assert_eq!(Arc::strong_count(&config), before);
    assert!(Arc::ptr_eq(&copy.get::<Config>().unwrap(), &config));
    drop(state);
    assert!(Arc::ptr_eq(&copy.get::<Config>().unwrap(), &config));
}

#[test]
fn the_state_goes_into_actix_data_with_its_registry() {
    let config = Arc::new(Config { name: "app" });
    let state = state_with(config.clone());
    let data = Data::from(state);
    let found = data.get::<Config>().expect("registered");
    assert!(Arc::ptr_eq(&found, &config));
    assert!(data.get::<Session>().is_none());
    let again: Data<AppState> = data.clone();
    assert!(Arc::ptr_eq(&again.get_ref().get::<Config>().unwrap(), &config));
}

fn shareable<T: Send + Sync + 'static>() {}

#[test]
fn the_registry_and_the_state_can_be_shared_between_threads() {
    shareable::<ServiceRegistry>();
    shareable::<AppState>();
    shareable::<Data<AppState>>();
    shareable::<service_registry::ServiceHandle>();
}
