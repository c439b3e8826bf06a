//! Modules: groups of registrations that are made together.
use crate::error::ServiceError;
use crate::model::RegistryView;
use crate::registry::ServiceRegistry;
use crate::identity::type_identity;
use crate::service::{handle_identity, service_at, As, DependencyProvider, Service, ServiceHandle};
use std::any::TypeId;
use std::sync::Arc;
use vstd::prelude::*;

verus! {

/// A group of services that registers itself with a registry.
pub trait Module: Send + Sync {
    /// What the module says of its registration: whether, from the registry
    /// `before`, it may end with `answer` and leave the registry `after`. A
    /// module that says nothing allows everything.
    open spec fn registers(
        &self,
        before: RegistryView,
        answer: Result<(), ServiceError>,
        after: RegistryView,
    ) -> bool {
        true
    }

    /// Registers every service of the module.
    fn register(&self, registry: &mut ServiceRegistry) -> (answer: Result<(), ServiceError>)
        ensures
            self.registers(old(registry)@, answer, final(registry)@),
    ;
}

/// A module of a group, its type forgotten.
pub struct Member {
    module: Box<dyn Module>,
}

impl Member {
    /// What the module says of its registration.
    pub closed spec fn registers(
        self,
        before: RegistryView,
        answer: Result<(), ServiceError>,
        after: RegistryView,
    ) -> bool {
        self.module.registers(before, answer, after)
    }

    /// Forgets the type of a module. The member says of its registration
    /// what the module says.
    pub fn new<M: Module + 'static>(module: M) -> (member: Member)
        ensures
            forall|before: RegistryView, answer: Result<(), ServiceError>, after: RegistryView|
                #[trigger] member.registers(before, answer, after) == module.registers(
                    before,
                    answer,
                    after,
                ),
    {
        boxed(module)
    }
}

/// Puts the module in a `Box` and turns `Box<M>` into `Box<dyn Module>` by
/// the unsizing coercion. The claim: behind the pointer is `module` itself,
/// so that a call through the pointer is a call of `module`, and what the
/// member says of its registration is what `module` says.
#[verifier::external_body]
fn boxed<M: Module + 'static>(module: M) -> (member: Member)
    ensures
        forall|before: RegistryView, answer: Result<(), ServiceError>, after: RegistryView|
            #[trigger] member.registers(before, answer, after) == module.registers(
                before,
                answer,
                after,
            ),
{
    Member { module: Box::new(module) }
}

/// Collects modules, in order, to make one module of them.
pub struct ModuleBuilder {
    modules: Vec<Member>,
}

impl View for ModuleBuilder {
    type V = Seq<Member>;

    closed spec fn view(&self) -> Seq<Member> {
        self.modules@
    }
}

impl ModuleBuilder {
    /// A builder with no module.
    pub fn new() -> (builder: Self)
        ensures
            builder@ == Seq::<Member>::empty(),
    {
        ModuleBuilder { modules: Vec::new() }
    }

    /// Adds a module behind those that are there. As a member it says of
    /// its registration what the module says.
    pub fn add_module<M: Module + 'static>(&mut self, module: M)
        ensures
            final(self)@.len() == old(self)@.len() + 1,
            forall|i: int| 0 <= i < old(self)@.len() ==> final(self)@[i] == old(self)@[i],
            forall|before: RegistryView, answer: Result<(), ServiceError>, after: RegistryView|
                #[trigger] final(self)@[old(self)@.len() as int].registers(before, answer, after)
                    == module.registers(before, answer, after),
    {
        self.modules.push(Member::new(module));
    }

    /// The module made of the modules that were added, in that order.
    pub fn build(self) -> (composite: CompositeModule)
        ensures
            composite@ == self@,
    {
        CompositeModule { modules: self.modules }
    }
}

/// A module made of other modules.
pub struct CompositeModule {
    modules: Vec<Member>,
}

impl View for CompositeModule {
    type V = Seq<Member>;

    closed spec fn view(&self) -> Seq<Member> {
        self.modules@
    }
}

impl CompositeModule {
    /// How many modules it is made of.
    pub fn len(&self) -> (count: usize)
        ensures
            count == self@.len(),
    {
        self.modules.len()
    }
}

/// Whether `states` is how the registry went when the modules registered one
/// after the other and the whole ended with `answer`. `states[i]` is the
/// registry that module `i` found and `states[i + 1]` the one it left. Each
/// module but the last that registered succeeded; the last one ended with
/// `answer`. After a success every module has registered; a failure is that
/// of the module at which the sequence stopped.
pub open spec fn registered_in_turn(
    members: Seq<Member>,
    states: Seq<RegistryView>,
    answer: Result<(), ServiceError>,
) -> bool {
    let ran = states.len() - 1;
    &&& 0 <= ran <= members.len()
    &&& answer is Ok ==> ran == members.len()
    &&& answer is Err ==> ran >= 1
    &&& forall|i: int|
        #![trigger members[i]]
        #![trigger states[i]]
        0 <= i < ran ==> members[i].registers(
            states[i],
            if i + 1 < ran {
                Ok(())
            } else {
                answer
            },
            states[i + 1],
        )
}

impl Module for CompositeModule {
    /// The modules register in turn, from `before`, and leave `after`.
    open spec fn registers(
        &self,
        before: RegistryView,
        answer: Result<(), ServiceError>,
        after: RegistryView,
    ) -> bool {
        exists|states: Seq<RegistryView>| #[trigger]
            registered_in_turn(self@, states, answer) && states.first() == before && states.last()
                == after
    }

    /// Lets each module register, in order, and stops at the first that
    /// fails, with its error. What the modules before it registered stays.
    /// With no module, the registry is left as it was.
    fn register(&self, registry: &mut ServiceRegistry) -> (answer: Result<(), ServiceError>)
        ensures
            final(registry)@.well_formed(),
            self@.len() == 0 ==> answer is Ok && final(registry)@ == old(registry)@,
    {
        let ghost mut states = seq![registry@];
        let mut i: usize = 0;
        while i < self.modules.len()
            invariant
                i <= self.modules@.len(),
                states.len() == i + 1,
                states.first() == old(registry)@,
                states.last() == registry@,
                forall|k: int|
                    #![trigger self@[k]]
                    #![trigger states[k]]
                    0 <= k < i ==> self@[k].registers(states[k], Ok(()), states[k + 1]),
            decreases self.modules@.len() - i,
        {
            let answer = self.modules[i].module.register(registry);
            proof {
                states = states.push(registry@);
            }
            match answer {
                Err(error) => {
                    proof {
                        use_type_invariant(&*registry);
                        assert(registered_in_turn(self@, states, answer));
                    }
                    return Err(error);
                },
                Ok(()) => {
                    assert(answer->Ok_0 == ());
                },
            }
            i += 1;
        }
        proof {
            use_type_invariant(&*registry);
            assert(registered_in_turn(self@, states, Ok(())));
        }
        Ok(())
    }
}

/// Registration of a service that can be viewed as a `T`.
pub trait ServiceRegistration<T: ?Sized> {
    fn register_service<S>(&mut self, service: Arc<S>) -> Result<(), ServiceError> where
        S: Service + DependencyProvider + As<T> + 'static,
    ;
}

impl<T: ?Sized> ServiceRegistration<T> for ServiceRegistry {
    /// The registration of [`ServiceRegistry::register`].
    fn register_service<S>(&mut self, service: Arc<S>) -> (answer: Result<(), ServiceError>) where
        S: Service + DependencyProvider + As<T> + 'static,

        ensures
            exists|handle: ServiceHandle, deps: Vec<TypeId>|
                {
                    &&& handle_identity(handle) == type_identity::<S>()
                    &&& service_at::<S>(handle) == Some(service)
                    &&& call_ensures(S::required_services, (), deps)
                    &&& (final(self)@, answer) == #[trigger] old(self)@.register(handle, deps@)
                    &&& answer is Ok <==> forall|k: int|
                        0 <= k < deps@.len() ==> old(self)@.contains(#[trigger] deps@[k])
                    &&& answer is Err ==> exists|first: int|
                        {
                            &&& 0 <= first < deps@.len()
                            &&& answer == Err::<(), ServiceError>(
                                ServiceError::MissingDependency(#[trigger] deps@[first]),
                            )
                            &&& !old(self)@.contains(deps@[first])
                            &&& forall|k: int|
                                0 <= k < first ==> old(self)@.contains(#[trigger] deps@[k])
                        }
                },
            final(self)@.well_formed(),
    {
        self.register(service)
    }
}

} // verus!
