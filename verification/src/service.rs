//! What a type must offer to be kept in the registry.
use crate::identity::type_identity;
use std::any::{Any, TypeId};
use std::sync::Arc;
use vstd::prelude::*;

verus! {

/// A long-lived component that the registry can hold: shareable between
/// threads, and of a type that has an identity.
///
/// A service may have work to do when the application starts and when it
/// stops. Those hooks suspend on input and output, so they are declared and
/// awaited by whoever makes the lifecycle passes; the registry says in which
/// order (see [`crate::lifecycle`]).
pub trait Service: Send + Sync + 'static {
}

/// The services that must be in the registry before one of this type is
/// registered. The list belongs to the type, not to an instance; its order
/// does not matter and an identity may occur in it more than once.
pub trait DependencyProvider: Service {
    fn required_services() -> Vec<TypeId> where Self: Sized;
}

/// Viewing a value as a `T`.
pub trait As<T: ?Sized> {
    fn as_ref(&self) -> &T;
}

impl<T: ?Sized> As<T> for T {
    /// Every value can be viewed as what it is.
    fn as_ref(&self) -> (same: &T)
        ensures
            same == self,
    {
        self
    }
}

/// A shared service whose concrete type has been forgotten. The registry keeps
/// one per identity. The only thing to do with one is to ask for the service
/// back at a given type.
///
/// Inside is an `Arc<dyn Any + Send + Sync>`, a type that the verifier does
/// not take; the struct is opaque to it.
#[verifier::external_body]
pub struct ServiceHandle {
    inner: Arc<dyn Any + Send + Sync>,
}

/// The identity of the concrete type of the service behind a handle: what
/// `Any::type_id` answers for it.
pub uninterp spec fn handle_identity(handle: ServiceHandle) -> TypeId;

/// Calls `Arc::<dyn Any + Send + Sync>::downcast::<T>` on a clone of the
/// pointer, with nothing claimed. It is here to give [`service_at`] something
/// to speak of: the results that this call can have.
#[verifier::external_body]
fn some_downcast<T: Service>(handle: &ServiceHandle) -> Option<Arc<T>> {
    handle.inner.clone().downcast::<T>().ok()
}

/// The service behind a handle, seen as a `T`: what
/// `Arc::<dyn Any + Send + Sync>::downcast::<T>` gives for it, which is
/// nothing when the service is of another type.
pub closed spec fn service_at<T: Service>(handle: ServiceHandle) -> Option<Arc<T>> {
    choose|found: Option<Arc<T>>| call_ensures(some_downcast::<T>, (&handle,), found)
}

/// Turns `Arc<T>` into `Arc<dyn Any + Send + Sync>` by the unsizing coercion.
/// The handle shares the instance with `service`. The claims: what
/// `Any::type_id` answers for the value behind the new pointer is what
/// `TypeId::of::<T>()` gives, since that value is a `T`; and a downcast of
/// the new pointer to `T` gives a pointer to that same value.
#[verifier::external_body]
fn erase<T: Service>(service: Arc<T>) -> (handle: ServiceHandle)
    ensures
        handle_identity(handle) == type_identity::<T>(),
        service_at::<T>(handle) == Some(service),
{
    ServiceHandle { inner: service }
}

/// Calls `Arc::<dyn Any + Send + Sync>::downcast::<T>` on a clone of the
/// pointer. The claims: the result is a function of the handle and of `T`
/// alone; and a pointer is given back exactly when the concrete type of the
/// value is `T`, which std decides by comparing what `Any::type_id` answers
/// for the value with `TypeId::of::<T>()`.
#[verifier::external_body]
fn narrow<T: Service>(handle: &ServiceHandle) -> (found: Option<Arc<T>>)
    ensures
        found == service_at::<T>(*handle),
        found is Some <==> handle_identity(*handle) == type_identity::<T>(),
{
    handle.inner.clone().downcast::<T>().ok()
}

/// Calls `Any::type_id` on the value behind the pointer, which answers with
/// the identity of that value's concrete type. The claim: the answer depends
/// on the handle alone.
#[verifier::external_body]
fn concrete_type(handle: &ServiceHandle) -> (key: TypeId)
    ensures
        key == handle_identity(*handle),
{
    (*handle.inner).type_id()
}

impl ServiceHandle {
    /// Forgets the type of a shared service. The handle keeps the identity
    /// of that type, and gives the service back when asked for a `T`.
    pub fn new<T: Service>(service: Arc<T>) -> (handle: ServiceHandle)
        ensures
            handle_identity(handle) == type_identity::<T>(),
            service_at::<T>(handle) == Some(service),
    {
        erase(service)
    }

    /// The identity of the service's concrete type.
    pub fn identity(&self) -> (key: TypeId)
        ensures
            key == handle_identity(*self),
    {
        concrete_type(self)
    }

    /// The shared service at type `T`. It is given exactly when the handle
    /// keeps the identity of `T`.
    pub fn downcast<T: Service>(&self) -> (found: Option<Arc<T>>)
        ensures
            found == service_at::<T>(*self),
            found is Some <==> handle_identity(*self) == type_identity::<T>(),
    {
        narrow::<T>(self)
    }
}

} // verus!
