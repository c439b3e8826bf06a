//! A service container: a registry of singleton services keyed by their type.
//!
//! The registry checks, when a service is registered, that every service it
//! declares as a dependency is already present, records the order of
//! registration, and plans the two lifecycle passes from that order: start-up
//! walks it forward, tear-down walks it backward. The hooks themselves are
//! asynchronous and run outside this crate; the crate decides which hook is next
//! and when a pass ends.
pub mod error;
pub mod identity;
pub mod lifecycle;
pub mod model;
pub mod module;
pub mod registry;
pub mod service;
pub mod state;

pub use error::ServiceError;
pub use lifecycle::{Pass, Step};
pub use module::{CompositeModule, Module, ModuleBuilder, ServiceRegistration};
pub use model::RegistryView;
pub use registry::ServiceRegistry;
pub use service::{As, DependencyProvider, Service, ServiceHandle};
pub use state::AppState;
