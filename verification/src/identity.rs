//! Type identities: the key space of the registry.
use std::any::TypeId;
use vstd::prelude::*;

verus! {

/// `std::any::TypeId`, taken as an opaque token. Nothing is known of what is
/// inside one; two tokens are the same or they are not.
#[verifier::external_type_specification]
#[verifier::external_body]
pub struct ExTypeId(std::any::TypeId);

/// Calls `TypeId::of::<T>()`, with nothing claimed. It is here to give
/// [`type_identity`] something to speak of: the results that this call can
/// have.
#[verifier::external_body]
fn some_type_id<T: ?Sized + 'static>() -> TypeId {
    TypeId::of::<T>()
}

/// The identity of the type `T`: what `TypeId::of::<T>()` gives.
pub closed spec fn type_identity<T: ?Sized + 'static>() -> TypeId {
    choose|key: TypeId| call_ensures(some_type_id::<T>, (), key)
}

/// Calls `TypeId::of::<T>()`. The claim: the token is a function of `T`
/// alone, so that every call for one type gives the same token.
#[verifier::external_body]
fn type_id_of<T: ?Sized + 'static>() -> (key: TypeId)
    ensures
        key == type_identity::<T>(),
{
    TypeId::of::<T>()
}

/// Calls `==` of `TypeId`. The claim: it answers `true` exactly when the two
/// tokens are the same token.
#[verifier::external_body]
pub(crate) fn type_id_eq(a: &TypeId, b: &TypeId) -> (same: bool)
    ensures
        same == (*a == *b),
{
    a == b
}

/// The identity under which a service of type `T` is kept.
pub fn identity_of<T: ?Sized + 'static>() -> (key: TypeId)
    ensures
        key == type_identity::<T>(),
{
    type_id_of::<T>()
}

} // verus!
