//! The registry as shared application state.
use crate::error::ServiceError;
use crate::model::RegistryView;
use crate::registry::ServiceRegistry;
use crate::identity::type_identity;
use crate::service::Service;
use actix_web::web::Data;
use std::sync::Arc;
use vstd::prelude::*;
use vstd::std_specs::convert::FromSpecImpl;

verus! {

/// A handle on a registry that many holders share. It can be cloned freely
/// and offers lookups only.
pub struct AppState {
    registry: Arc<ServiceRegistry>,
}

impl Clone for AppState {
    /// Another handle on the same registry.
    fn clone(&self) -> (other: Self)
        ensures
            other@ == self@,
    {
        AppState { registry: self.registry.clone() }
    }
}

impl View for AppState {
    type V = RegistryView;

    closed spec fn view(&self) -> RegistryView {
        (*self.registry)@
    }
}

impl AppState {
    /// Shares a registry. The state shows the registry as it was handed in.
    pub fn new(registry: ServiceRegistry) -> (state: Self)
        ensures
            state@ == registry@,
            state@.well_formed(),
    {
        proof {
            use_type_invariant(&registry);
        }
        AppState { registry: Arc::new(registry) }
    }

    /// The shared service of type `T`, if one is registered: the answer of
    /// [`ServiceRegistry::get`] on the shared registry.
    pub fn get<T: Service + 'static>(&self) -> (found: Option<Arc<T>>)
        ensures
            found == self@.service::<T>(),
            found is Some <==> self@.contains(type_identity::<T>()),
    {
        self.registry.get::<T>()
    }

    /// The shared service of type `T`, for a caller that cannot go on without
    /// it: the answer of [`ServiceRegistry::require`] on the shared registry.
    pub fn require<T: Service + 'static>(&self) -> (found: Result<Arc<T>, ServiceError>)
        ensures
            found == match self@.service::<T>() {
                Some(service) => Ok::<Arc<T>, ServiceError>(service),
                None => Err(ServiceError::ServiceNotFound(type_identity::<T>())),
            },
            found is Ok <==> self@.contains(type_identity::<T>()),
    {
        self.registry.require::<T>()
    }
}

/// `actix_web::web::Data`, the container in which actix-web shares
/// application state between its workers. Opaque here.
#[verifier::external_type_specification]
#[verifier::external_body]
#[verifier::reject_recursive_types(T)]
pub struct ExData<T: ?Sized>(actix_web::web::Data<T>);

/// What `Data::new` makes of a state that shows the given registry.
pub uninterp spec fn shared_data(registry: RegistryView) -> Data<AppState>;

/// The registry that the state inside a container shows: the view of what
/// `Data::get_ref` gives.
pub uninterp spec fn shared_registry(data: Data<AppState>) -> RegistryView;

/// Calls `Data::new`, which puts its argument behind a new shared pointer.
/// The claims: the container is determined by what it was given, and it
/// holds what it was given.
#[verifier::external_body]
fn share(state: AppState) -> (data: Data<AppState>)
    ensures
        data == shared_data(state@),
        shared_registry(data) == state@,
{
    Data::new(state)
}

impl From<AppState> for Data<AppState> {
    /// Hands the state to actix-web. The container holds the state, with
    /// the registry as it is.
    fn from(state: AppState) -> (data: Self)
        ensures
            shared_registry(data) == state@,
    {
        share(state)
    }
}

impl FromSpecImpl<AppState> for Data<AppState> {
    open spec fn obeys_from_spec() -> bool {
        true
    }

    open spec fn from_spec(state: AppState) -> Self {
        shared_data(state@)
    }
}

} // verus!
