//! The registry as a mathematical value, and what holds of it.
//!
//! A registry is a log of identities, a store that keeps one service under
//! each identity, and the dependency edges that were declared when each
//! identity entered the log. Registration is a function on such values; the
//! lemmas of this module say what it guarantees.
use crate::error::ServiceError;
use crate::identity::type_identity;
use crate::service::{handle_identity, service_at, Service, ServiceHandle};
use std::any::TypeId;
use std::sync::Arc;
use vstd::prelude::*;

verus! {

/// The registry as a mathematical value.
pub struct RegistryView {
    /// The registration log: every identity in the order of its first
    /// registration.
    pub order: Seq<TypeId>,
    /// The store: the service kept under each identity.
    pub store: Map<TypeId, ServiceHandle>,
    /// The dependency edges: `edges[i]` is the list that was declared when
    /// `order[i]` entered the log.
    pub edges: Seq<Seq<TypeId>>,
}

impl RegistryView {
    /// The registry that holds nothing.
    pub open spec fn empty() -> RegistryView {
        RegistryView { order: Seq::empty(), store: Map::empty(), edges: Seq::empty() }
    }

    /// What every registry satisfies: no identity is logged twice, the log
    /// and the store hold the same identities, every service is kept under
    /// the identity of its own concrete type, and every declared dependency
    /// of a logged identity stands earlier in the log.
    pub open spec fn well_formed(self) -> bool {
        &&& self.order.no_duplicates()
        &&& self.store.dom() == self.order.to_set()
        &&& forall|key: TypeId| #[trigger]
            self.store.contains_key(key) ==> handle_identity(self.store[key]) == key
        &&& self.edges.len() == self.order.len()
        &&& forall|i: int, k: int|
            0 <= i < self.order.len() && 0 <= k < self.edges[i].len() ==> self.order.take(
                i,
            ).contains(#[trigger] self.edges[i][k])
    }

    /// Whether the registry holds no service at all.
    pub open spec fn is_empty(self) -> bool {
        self.store.dom() == Set::<TypeId>::empty()
    }

    /// Whether a service is kept under `key`.
    pub open spec fn contains(self, key: TypeId) -> bool {
        self.store.contains_key(key)
    }

    /// The service of type `T` that the registry holds, if it holds one:
    /// what is kept under the identity of `T`, seen as a `T`.
    pub open spec fn service<T: Service>(self) -> Option<Arc<T>> {
        if self.contains(type_identity::<T>()) {
            service_at::<T>(self.store[type_identity::<T>()])
        } else {
            None
        }
    }

    /// The first identity of `deps` that the registry does not hold, if there
    /// is one.
    pub open spec fn first_missing(self, deps: Seq<TypeId>) -> Option<TypeId>
        decreases deps.len(),
    {
        if deps.len() == 0 {
            None
        } else if !self.contains(deps[0]) {
            Some(deps[0])
        } else {
            self.first_missing(deps.drop_first())
        }
    }

    /// The registry after a service has been put under its identity. A new
    /// identity goes to the end of the log, with `deps` as its edges. An
    /// identity that is already logged keeps its place and its edges; only
    /// the service kept under it changes.
    pub open spec fn with_service(self, handle: ServiceHandle, deps: Seq<TypeId>) -> RegistryView {
        let key = handle_identity(handle);
        if self.contains(key) {
            RegistryView { store: self.store.insert(key, handle), ..self }
        } else {
            RegistryView {
                order: self.order.push(key),
                store: self.store.insert(key, handle),
                edges: self.edges.push(deps),
            }
        }
    }

    /// Registration: the registry afterwards, and the answer. If some
    /// identity of `deps` is not held, the registry stays as it is and the
    /// answer names the first such identity. Otherwise the service is put
    /// under its identity.
    pub open spec fn register(self, handle: ServiceHandle, deps: Seq<TypeId>) -> (
        RegistryView,
        Result<(), ServiceError>,
    ) {
        match self.first_missing(deps) {
            Some(dep) => (self, Err(ServiceError::MissingDependency(dep))),
            None => (self.with_service(handle, deps), Ok(())),
        }
    }
}

impl RegistryView {
    /// When no identity of `deps` is missing, each of them is held; when one
    /// is missing, the first such is an identity of `deps` that is not held,
    /// and all before it are held.
    pub proof fn lemma_first_missing(self, deps: Seq<TypeId>)
        ensures
            match self.first_missing(deps) {
                None => forall|k: int| 0 <= k < deps.len() ==> self.contains(#[trigger] deps[k]),
                Some(dep) => exists|k: int|
                    0 <= k < deps.len() && #[trigger] deps[k] == dep && !self.contains(dep)
                        && forall|j: int| 0 <= j < k ==> self.contains(#[trigger] deps[j]),
            },
        decreases deps.len(),
    {
        if deps.len() > 0 && self.contains(deps[0]) {
            let rest = deps.drop_first();
            self.lemma_first_missing(rest);
            match self.first_missing(rest) {
                None => {
                    assert forall|k: int| 0 <= k < deps.len() implies self.contains(
                        #[trigger] deps[k],
                    ) by {
                        if k > 0 {
                            assert(deps[k] == rest[k - 1]);
                        }
                    }
                },
                Some(dep) => {
                    let k = choose|k: int|
                        0 <= k < rest.len() && #[trigger] rest[k] == dep && !self.contains(dep)
                            && forall|j: int| 0 <= j < k ==> self.contains(#[trigger] rest[j]);
                    assert forall|j: int| 0 <= j < k + 1 implies self.contains(
                        #[trigger] deps[j],
                    ) by {
                        if j > 0 {
                            assert(deps[j] == rest[j - 1]);
                        }
                    }
                },
            }
        }
    }

    /// Registration keeps a registry well-formed, whatever is registered and
    /// whether or not it is accepted.
    pub proof fn lemma_register_well_formed(self, handle: ServiceHandle, deps: Seq<TypeId>)
        requires
            self.well_formed(),
        ensures
            self.register(handle, deps).0.well_formed(),
    {
        self.lemma_first_missing(deps);
        let key = handle_identity(handle);
        let after = self.register(handle, deps).0;
        if self.first_missing(deps) is None {
            if self.contains(key) {
                assert(after.store.dom() =~= self.store.dom());
            } else {
                let n = self.order.len() as int;
                assert(after.store.dom() =~= after.order.to_set()) by {
                    assert forall|k: TypeId| after.store.dom().contains(k) implies
                        after.order.to_set().contains(k) by {
                        if k == key {
                            assert(after.order[n] == k);
                        } else {
                            assert(after.order[self.order.index_of(k)] == k);
                        }
                    }
                }
                assert forall|i: int, k: int|
                    0 <= i < after.order.len() && 0 <= k < after.edges[i].len() implies
                    after.order.take(i).contains(#[trigger] after.edges[i][k]) by {
                    if i < n {
                        assert(after.order.take(i) =~= self.order.take(i));
                    } else {
                        assert(after.order.take(i) =~= self.order);
                    }
                }
            }
        }
    }
}

/// One request to register a service: the service, and the dependencies
/// declared with it.
pub struct Registration {
    pub handle: ServiceHandle,
    pub deps: Seq<TypeId>,
}

impl RegistryView {
    /// The registry after the requests have been made, one after the other.
    /// A request that is refused leaves the registry as it was.
    pub open spec fn after(self, requests: Seq<Registration>) -> RegistryView
        decreases requests.len(),
    {
        if requests.len() == 0 {
            self
        } else {
            let last = requests.last();
            self.after(requests.drop_last()).register(last.handle, last.deps).0
        }
    }

    /// Any sequence of requests, made of a well-formed registry, leaves a
    /// well-formed registry.
    pub proof fn lemma_after_well_formed(self, requests: Seq<Registration>)
        requires
            self.well_formed(),
        ensures
            self.after(requests).well_formed(),
        decreases requests.len(),
    {
        if requests.len() > 0 {
            let last = requests.last();
            self.lemma_after_well_formed(requests.drop_last());
            self.after(requests.drop_last()).lemma_register_well_formed(last.handle, last.deps);
        }
    }

    /// Uniqueness. Whatever has been registered, from an empty registry on,
    /// no identity stands twice in the log, and the store keeps one service
    /// under each identity of the log.
    pub proof fn lemma_no_identity_twice(requests: Seq<Registration>)
        ensures
            Self::empty().after(requests).order.no_duplicates(),
            Self::empty().after(requests).store.dom().len() == Self::empty().after(
                requests,
            ).order.len(),
    {
        assert(Self::empty().order.to_set() =~= Set::empty());
        Self::empty().lemma_after_well_formed(requests);
        Self::empty().after(requests).order.unique_seq_to_set();
    }

    /// Order mirroring. Whatever has been registered, from an empty registry
    /// on, the identities of the log are the identities of the store.
    pub proof fn lemma_log_mirrors_store(requests: Seq<Registration>)
        ensures
            Self::empty().after(requests).order.to_set() == Self::empty().after(
                requests,
            ).store.dom(),
    {
        assert(Self::empty().order.to_set() =~= Set::empty());
        Self::empty().lemma_after_well_formed(requests);
    }

    /// Whether request `i` of `requests`, made of this registry after the
    /// requests before it, is accepted.
    pub open spec fn accepts(self, requests: Seq<Registration>, i: int) -> bool {
        self.after(requests.take(i)).first_missing(requests[i].deps) is None
    }

    /// Whether request `i` is the last accepted request of `requests` that
    /// registers a service of identity `key`.
    pub open spec fn is_last_accepted(self, requests: Seq<Registration>, key: TypeId, i: int)
        -> bool {
        &&& 0 <= i < requests.len()
        &&& handle_identity(requests[i].handle) == key
        &&& self.accepts(requests, i)
        &&& forall|j: int|
            i < j < requests.len() && handle_identity(#[trigger] requests[j].handle) == key
                ==> !self.accepts(requests, j)
    }

    /// Lookup safety. A registry holds an identity that it did not hold at
    /// first only because a request that registers a service of that
    /// identity was accepted, and what it keeps there is the service of the
    /// last such request. So a request that is refused, and the registration
    /// of a service of another identity, make nothing present.
    pub proof fn lemma_kept_was_registered(self, requests: Seq<Registration>, key: TypeId) -> (i:
        int)
        requires
            !self.contains(key),
            self.after(requests).contains(key),
        ensures
            self.is_last_accepted(requests, key, i),
            self.after(requests).store[key] == requests[i].handle,
        decreases requests.len(),
    {
        let n = requests.len() as int;
        let earlier = requests.drop_last();
        let last = requests.last();
        if self.accepts(requests, n - 1) && handle_identity(last.handle) == key {
            n - 1
        } else {
            let i = self.lemma_kept_was_registered(earlier, key);
            assert(requests.take(i) =~= earlier.take(i));
            assert forall|j: int|
                i < j < requests.len() && handle_identity(#[trigger] requests[j].handle)
                    == key implies !self.accepts(requests, j) by {
                if j < n - 1 {
                    assert(requests.take(j) =~= earlier.take(j));
                    assert(earlier[j] == requests[j]);
                }
            }
            i
        }
    }

    /// Lookup safety, by type. Whatever has been registered, from an empty
    /// registry on, a service of type `T` is found only if a request that
    /// registers a service of the identity of `T` was accepted, and what is
    /// found is the service of the last such request.
    pub proof fn lemma_found_was_registered<T: Service>(requests: Seq<Registration>) -> (i: int)
        requires
            Self::empty().after(requests).service::<T>() is Some,
        ensures
            Self::empty().is_last_accepted(requests, type_identity::<T>(), i),
            Self::empty().after(requests).service::<T>() == service_at::<T>(requests[i].handle),
    {
        Self::empty().lemma_kept_was_registered(requests, type_identity::<T>())
    }

    /// Dependency order. In a well-formed registry every dependency that was
    /// declared for a logged identity stands in the log before that identity.
    pub proof fn lemma_dependencies_come_first(self, at: int, dep: TypeId)
        requires
            self.well_formed(),
            0 <= at < self.order.len(),
            self.edges[at].contains(dep),
        ensures
            exists|earlier: int| 0 <= earlier < at && self.order[earlier] == dep,
    {
        let k = choose|k: int| 0 <= k < self.edges[at].len() && self.edges[at][k] == dep;
        let earlier = self.order.take(at).index_of(self.edges[at][k]);
        assert(self.order[earlier] == dep);
    }

    /// Dependency gating. A registration that declares an identity which the
    /// registry does not hold is refused with `MissingDependency`, naming
    /// the first declared identity that is not held, and the registry is
    /// left as it was: same store, same log.
    pub proof fn lemma_missing_dependency_refused(
        self,
        handle: ServiceHandle,
        deps: Seq<TypeId>,
        missing: int,
    )
        requires
            0 <= missing < deps.len(),
            !self.contains(deps[missing]),
        ensures
            self.register(handle, deps).0 == self,
            exists|first: int|
                0 <= first <= missing && !self.contains(#[trigger] deps[first]) && (forall|j: int|
                    0 <= j < first ==> self.contains(#[trigger] deps[j])) && self.register(
                    handle,
                    deps,
                ).1 == Err::<(), ServiceError>(ServiceError::MissingDependency(deps[first])),
    {
        self.lemma_first_missing(deps);
    }

    /// A registration whose declared identities are all held is accepted,
    /// and the service is then kept under its identity.
    pub proof fn lemma_present_dependencies_accepted(self, handle: ServiceHandle, deps: Seq<TypeId>)
        requires
            forall|k: int| 0 <= k < deps.len() ==> self.contains(#[trigger] deps[k]),
        ensures
            self.register(handle, deps).1 == Ok::<(), ServiceError>(()),
            self.register(handle, deps).0.contains(handle_identity(handle)),
            self.register(handle, deps).0.store[handle_identity(handle)] == handle,
            forall|other: TypeId|
                self.contains(other) ==> self.register(handle, deps).0.contains(other),
    {
        self.lemma_first_missing(deps);
    }
}

} // verus!
