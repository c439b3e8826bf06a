//! The failures that the registry and the lifecycle passes report.
use std::any::TypeId;
use vstd::prelude::*;

verus! {

/// What can go wrong in the container.
#[derive(Debug, PartialEq, Eq)]
pub enum ServiceError {
    /// A lookup that demands presence found no service under this identity.
    ServiceNotFound(TypeId),
    /// A registration declared this identity as a dependency, and it was not
    /// in the registry yet.
    MissingDependency(TypeId),
    /// A start-up hook failed, with its message.
    InitializationError(String),
    /// A tear-down hook failed, with its message.
    ShutdownError(String),
}

} // verus!
