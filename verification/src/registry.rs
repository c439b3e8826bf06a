//! The registry: a store of shared services, one per type, that admits a
//! service only when the services it depends on are there, and that remembers
//! the order in which the types were registered.
//!
//! A type that is registered again keeps its place in the log; the new
//! instance replaces the old one. The registry does not keep track of whether
//! a lifecycle pass has been made: a registration after start-up is a
//! registration like any other, and a later pass sees it.
use crate::error::ServiceError;
use crate::identity::{identity_of, type_id_eq, type_identity};
use crate::model::RegistryView;
use crate::service::{handle_identity, service_at, DependencyProvider, Service, ServiceHandle};
use std::any::TypeId;
use std::sync::Arc;
use vstd::prelude::*;

verus! {

/// One registered service.
struct Entry {
    key: TypeId,
    handle: ServiceHandle,
    declared: Ghost<Seq<TypeId>>,
}

/// The service registry. Services are kept in the order of registration, one
/// per identity; the store and the log are two readings of that one sequence.
pub struct ServiceRegistry {
    entries: Vec<Entry>,
}

impl View for ServiceRegistry {
    type V = RegistryView;

    closed spec fn view(&self) -> RegistryView {
        let order = self.entries@.map_values(|e: Entry| e.key);
        RegistryView {
            order,
            store: Map::new(
                |key: TypeId| order.contains(key),
                |key: TypeId| self.entries@[order.index_of(key)].handle,
            ),
            edges: self.entries@.map_values(|e: Entry| e.declared@),
        }
    }
}

impl Default for ServiceRegistry {
    /// A registry that holds nothing.
    fn default() -> (registry: Self)
        ensures
            registry@ == RegistryView::empty(),
    {
        ServiceRegistry::new()
    }
}

impl ServiceRegistry {
    /// What holds of every registry that a program can have in hand.
    #[verifier::type_invariant]
    pub open spec fn valid(&self) -> bool {
        self@.well_formed()
    }

    /// The entry at `i` is what the store keeps under its identity.
    proof fn lemma_entry_in_store(&self, i: int)
        requires
            self@.well_formed(),
            0 <= i < self.entries@.len(),
        ensures
            self@.order[i] == self.entries@[i].key,
            self@.contains(self.entries@[i].key),
            self@.store[self.entries@[i].key] == self.entries@[i].handle,
    {
        assert(self@.order[i] == self.entries@[i].key);
        assert(self@.order.index_of(self.entries@[i].key) == i);
    }

    /// A registry that holds nothing.
    pub fn new() -> (registry: Self)
        ensures
            registry@ == RegistryView::empty(),
            registry@.well_formed(),
    {
        let registry = ServiceRegistry { entries: Vec::new() };
        assert(registry@.order =~= Seq::empty());
        assert(registry@.edges =~= Seq::empty());
        assert(registry@.store =~= Map::empty());
        registry
    }

    /// Where in the log `key` stands, if it is logged.
    fn position(&self, key: &TypeId) -> (at: Option<usize>)
        ensures
            self@.well_formed(),
            match at {
                Some(i) => i < self@.order.len() && self@.order[i as int] == *key
                    && i < self.entries@.len() && self.entries@[i as int].key == *key,
                None => !self@.contains(*key),
            },
    {
        proof {
            use_type_invariant(self);
        }
        let mut i: usize = 0;
        while i < self.entries.len()
            invariant
                i <= self.entries@.len(),
                self@.well_formed(),
                forall|j: int| 0 <= j < i ==> self.entries@[j].key != *key,
            decreases self.entries@.len() - i,
        {
            if type_id_eq(&self.entries[i].key, key) {
                proof {
                    self.lemma_entry_in_store(i as int);
                }
                return Some(i);
            }
            i += 1;
        }
        None
    }

    /// Whether a service is kept under `key`.
    pub fn contains(&self, key: &TypeId) -> (held: bool)
        ensures
            held == self@.contains(*key),
    {
        self.position(key).is_some()
    }

    /// The service kept under `key`, if there is one.
    pub fn lookup(&self, key: &TypeId) -> (found: Option<&ServiceHandle>)
        ensures
            found is Some <==> self@.contains(*key),
            found is Some ==> *found->0 == self@.store[*key] && handle_identity(*found->0) == *key,
    {
        match self.position(key) {
            Some(i) => Some(&self.entries[i].handle),
            None => None,
        }
    }

    /// The first identity of `deps` that is not held, if there is one.
    fn first_missing(&self, deps: &Vec<TypeId>) -> (missing: Option<TypeId>)
        ensures
            missing == self@.first_missing(deps@),
    {
        let mut i: usize = 0;
        assert(deps@.skip(0) =~= deps@);
        while i < deps.len()
            invariant
                i <= deps@.len(),
                self@.first_missing(deps@) == self@.first_missing(deps@.skip(i as int)),
            decreases deps@.len() - i,
        {
            let rest = Ghost(deps@.skip(i as int));
            assert(rest@.drop_first() =~= deps@.skip(i + 1));
            if !self.contains(&deps[i]) {
                return Some(deps[i]);
            }
            i += 1;
        }
        None
    }

    /// Registers a service whose type has been forgotten, with the
    /// dependencies that the caller declares for it.
    ///
    /// Every identity of `deps` must already be held. If one is not, the
    /// registry is left as it was and the error names the first that is
    /// missing. Otherwise the service is kept under the identity of its
    /// concrete type: a new identity is appended to the log; one that is
    /// already logged keeps its place, and the service kept under it is
    /// replaced.
    pub fn register_handle(&mut self, handle: ServiceHandle, deps: &Vec<TypeId>) -> (answer: Result<
        (),
        ServiceError,
    >)
        ensures
            (final(self)@, answer) == old(self)@.register(handle, deps@),
            final(self)@.well_formed(),
    {
        proof {
            use_type_invariant(&*self);
            self@.lemma_register_well_formed(handle, deps@);
        }
        if let Some(dep) = self.first_missing(deps) {
            return Err(ServiceError::MissingDependency(dep));
        }
        let key = handle.identity();
        let at = self.position(&key);
        let ghost before = *self;
        let mut entries: Vec<Entry> = Vec::new();
        std::mem::swap(&mut self.entries, &mut entries);
        match at {
            Some(i) => {
                let declared = Ghost(entries@[i as int].declared@);
                entries.set(i, Entry { key, handle, declared });
            },
            None => {
                entries.push(Entry { key, handle, declared: Ghost(deps@) });
            },
        }
        let ghost after = ServiceRegistry { entries };
        proof {
            Self::lemma_with_service(before, after, handle, deps@);
        }
        std::mem::swap(&mut self.entries, &mut entries);
        Ok(())
    }

    /// Putting an entry into the sequence is putting a service into the
    /// registry.
    proof fn lemma_with_service(
        before: ServiceRegistry,
        after: ServiceRegistry,
        handle: ServiceHandle,
        deps: Seq<TypeId>,
    )
        requires
            before@.well_formed(),
            ({
                let key = handle_identity(handle);
                &&& before@.contains(key) ==> exists|i: int|
                    0 <= i < before.entries@.len() && before.entries@[i].key == key
                        && after.entries@ == before.entries@.update(
                        i,
                        Entry { key, handle, declared: before.entries@[i].declared },
                    )
                &&& !before@.contains(key) ==> after.entries@ == before.entries@.push(
                    Entry { key, handle, declared: Ghost(deps) },
                )
            }),
        ensures
            after@ == before@.with_service(handle, deps),
    {
        let key = handle_identity(handle);
        let want = before@.with_service(handle, deps);
        let n = before.entries@.len() as int;
        if before@.contains(key) {
            let i = choose|i: int|
                0 <= i < before.entries@.len() && before.entries@[i].key == key
                    && after.entries@ == before.entries@.update(
                    i,
                    Entry { key, handle, declared: before.entries@[i].declared },
                );
            assert(after@.order =~= before@.order);
            assert(after@.edges =~= before@.edges);
            assert forall|k: TypeId| after@.order.contains(k) implies #[trigger] after@.store[k]
                == want.store[k] by {
                let j = after@.order.index_of(k);
                before.lemma_entry_in_store(j);
                if k == key {
                    before.lemma_entry_in_store(i);
                }
            }
            assert(after@.store =~= want.store);
        } else {
            assert(after@.order =~= before@.order.push(key));
            assert(after@.edges =~= before@.edges.push(deps));
            assert forall|k: TypeId| after@.order.contains(k) <==> want.store.dom().contains(
                k,
            ) by {
                if want.store.dom().contains(k) {
                    if k == key {
                        assert(after@.order[n] == k);
                    } else {
                        let j = choose|j: int| 0 <= j < n && before@.order[j] == k;
                        assert(after@.order[j] == k);
                    }
                }
            }
            assert forall|k: TypeId| after@.order.contains(k) implies #[trigger] after@.store[k]
                == want.store[k] by {
                let j = after@.order.index_of(k);
                if j < n {
                    before.lemma_entry_in_store(j);
                }
            }
            assert(after@.store =~= want.store);
        }
    }

    /// Registers a shared service under the identity of its type.
    ///
    /// The service is registered as [`register_handle`](Self::register_handle)
    /// registers the handle that [`ServiceHandle::new`] makes of it, with a
    /// list of dependencies that `T` declares. A registration that is
    /// refused names the first declared identity that is not held and
    /// changes nothing. One that is accepted keeps the service under the
    /// identity of `T`: at the end of the log if the type is new, in its old
    /// place if it was registered before. Nothing else changes.
    pub fn register<T: Service + DependencyProvider + 'static>(&mut self, service: Arc<T>) -> (answer:
        Result<(), ServiceError>)
        ensures
            exists|handle: ServiceHandle, deps: Vec<TypeId>|
                {
                    &&& handle_identity(handle) == type_identity::<T>()
                    &&& service_at::<T>(handle) == Some(service)
                    &&& call_ensures(T::required_services, (), deps)
                    &&& (final(self)@, answer) == #[trigger] old(self)@.register(handle, deps@)
                    &&& answer is Ok <==> forall|k: int|
                        0 <= k < deps@.len() ==> old(self)@.contains(#[trigger] deps@[k])
                    &&& answer is Err ==> exists|first: int|
                        {
                            &&& 0 <= first < deps@.len()
                            &&& answer == Err::<(), ServiceError>(
                                ServiceError::MissingDependency(#[trigger] deps@[first]),
                            )
                            &&& !old(self)@.contains(deps@[first])
                            &&& forall|k: int|
                                0 <= k < first ==> old(self)@.contains(#[trigger] deps@[k])
                        }
                },
            final(self)@.well_formed(),
            answer is Err ==> final(self)@ == old(self)@ && answer->Err_0 is MissingDependency
                && !old(self)@.contains(answer->Err_0->MissingDependency_0),
            answer is Ok ==> final(self)@.order == if old(self)@.contains(type_identity::<T>()) {
                old(self)@.order
            } else {
                old(self)@.order.push(type_identity::<T>())
            },
            answer is Ok ==> final(self)@.service::<T>() == Some(service),
            answer is Ok ==> forall|key: TypeId|
                key != type_identity::<T>() ==> final(self)@.contains(key) == old(self)@.contains(
                    key,
                ) && final(self)@.store[key] == old(self)@.store[key],
    {
        let deps = T::required_services();
        let handle = ServiceHandle::new(service);
        proof {
            self@.lemma_first_missing(deps@);
        }
        self.register_handle(handle, &deps)
    }

    /// The shared service of type `T`, if one is registered. Absence is an
    /// ordinary answer, not a failure.
    ///
    /// The service is looked up under the identity of `T`, and it is found
    /// exactly when a service is kept there: every service is kept under the
    /// identity of its own type, so what is kept there is a `T`.
    pub fn get<T: Service + 'static>(&self) -> (found: Option<Arc<T>>)
        ensures
            found == self@.service::<T>(),
            found is Some <==> self@.contains(type_identity::<T>()),
    {
        let key = identity_of::<T>();
        match self.lookup(&key) {
            Some(handle) => handle.downcast::<T>(),
            None => None,
        }
    }

    /// The shared service of type `T`, for a caller that cannot go on without
    /// it: where [`get`](Self::get) finds nothing, this fails with
    /// `ServiceNotFound` and the identity of `T`.
    pub fn require<T: Service + 'static>(&self) -> (found: Result<Arc<T>, ServiceError>)
        ensures
            found == match self@.service::<T>() {
                Some(service) => Ok::<Arc<T>, ServiceError>(service),
                None => Err(ServiceError::ServiceNotFound(type_identity::<T>())),
            },
            found is Ok <==> self@.contains(type_identity::<T>()),
    {
        let key = identity_of::<T>();
        let narrowed = match self.lookup(&key) {
            Some(handle) => handle.downcast::<T>(),
            None => None,
        };
        match narrowed {
            Some(service) => Ok(service),
            None => Err(ServiceError::ServiceNotFound(key)),
        }
    }

    /// The identity that stands at `index` in the log, if the log is that
    /// long.
    pub(crate) fn identity_at(&self, index: usize) -> (found: Option<TypeId>)
        ensures
            index < self@.order.len() ==> found == Some(self@.order[index as int]),
            index >= self@.order.len() ==> found is None,
    {
        if index < self.entries.len() {
            Some(self.entries[index].key)
        } else {
            None
        }
    }

    /// How many services the registry holds.
    pub fn len(&self) -> (count: usize)
        ensures
            count == self@.order.len(),
    {
        self.entries.len()
    }

    /// The registration log: the identities in the order in which they were
    /// first registered.
    pub fn order(&self) -> (log: Vec<TypeId>)
        ensures
            log@ == self@.order,
    {
        let mut log: Vec<TypeId> = Vec::new();
        let mut i: usize = 0;
        while i < self.entries.len()
            invariant
                i <= self.entries@.len(),
                log@ == self@.order.take(i as int),
            decreases self.entries@.len() - i,
        {
            log.push(self.entries[i].key);
            i += 1;
        }
        log
    }
}

} // verus!
