//! The lifecycle passes: which hook is run next, and when a pass ends.
//!
//! A pass runs one hook after the other, in the order of a plan, and stops at
//! the first that fails. The hooks are asynchronous and are run by the caller;
//! this module decides. The caller takes a first [`Step`] from [`begin`], runs
//! the hook at the position it names, hands the outcome to [`advance`], and
//! goes on until a step says that the pass is done.
//!
//! The registry has two plans, both taken from its log: start-up walks the
//! log forward, tear-down walks it backward. [`ServiceRegistry::planned`]
//! gives the identity whose hook stands at a position of either.
//!
//! A pass does not go back over hooks that succeeded before a failure, and
//! tear-down does not ask which hooks start-up ran: it walks the whole log.
//! Nothing here keeps a caller from making a pass twice or out of turn; once
//! is what the hooks may count on, and it is for the caller to see to it.
use crate::error::ServiceError;
use crate::model::RegistryView;
use crate::registry::ServiceRegistry;
use std::any::TypeId;
use vstd::prelude::*;

verus! {

/// Which of the two passes over the registry is made.
#[derive(Clone, Copy, Debug, PartialEq, Eq, Structural)]
pub enum Pass {
    /// Initialisation, in the order of registration.
    Startup,
    /// Shutdown, in the reverse order.
    Teardown,
}

/// What the caller of a pass does next.
#[derive(Debug, PartialEq, Eq)]
pub enum Step {
    /// Run the hook that stands at this position of the plan.
    Run(usize),
    /// The pass is over, with this result.
    Done(Result<(), ServiceError>),
}

/// The step that stands at `position` of a plan of `len` hooks: that hook,
/// or the successful end of the pass when the plan has no such position.
pub open spec fn step_at(len: nat, position: int) -> Step {
    if 0 <= position < len && position <= usize::MAX {
        Step::Run(position as usize)
    } else {
        Step::Done(Ok(()))
    }
}

/// The step that follows the hook at `position`, given how that hook ended:
/// a failure ends the pass with that failure, a success leads to the next
/// position.
pub open spec fn step_after(len: nat, position: int, outcome: Result<(), ServiceError>) -> Step {
    match outcome {
        Err(failure) => Step::Done(Err(failure)),
        Ok(()) => step_at(len, position + 1),
    }
}

/// The first step of a pass over `len` hooks.
pub fn begin(len: usize) -> (step: Step)
    ensures
        step == step_at(len as nat, 0),
{
    if len > 0 {
        Step::Run(0)
    } else {
        Step::Done(Ok(()))
    }
}

/// The step that follows the hook at `position` of a pass over `len` hooks,
/// when that hook ended as `outcome` says.
pub fn advance(len: usize, position: usize, outcome: Result<(), ServiceError>) -> (step: Step)
    ensures
        step == step_after(len as nat, position as int, outcome),
{
    match outcome {
        Err(failure) => Step::Done(Err(failure)),
        Ok(()) => {
            if position < len && position + 1 < len {
                Step::Run(position + 1)
            } else {
                Step::Done(Ok(()))
            }
        },
    }
}

impl RegistryView {
    /// The identities whose hooks a pass runs, in the order in which it runs
    /// them.
    pub open spec fn plan(self, pass: Pass) -> Seq<TypeId> {
        match pass {
            Pass::Startup => self.order,
            Pass::Teardown => self.order.reverse(),
        }
    }
}

impl ServiceRegistry {
    /// The identity whose hook stands at `position` of the plan of `pass`,
    /// if the plan is that long.
    pub fn planned(&self, pass: Pass, position: usize) -> (key: Option<TypeId>)
        ensures
            position < self@.plan(pass).len() ==> key == Some(self@.plan(pass)[position as int]),
            position >= self@.plan(pass).len() ==> key is None,
    {
        let len = self.len();
        if position < len {
            match pass {
                Pass::Startup => self.identity_at(position),
                Pass::Teardown => self.identity_at(len - 1 - position),
            }
        } else {
            None
        }
    }
}

/// A completed pass: the identities whose hooks were run, in the order in
/// which they were run, and the result of the pass.
pub struct Report {
    pub invoked: Seq<TypeId>,
    pub result: Result<(), ServiceError>,
}

/// How many steps can still follow `step`.
pub open spec fn steps_left(len: nat, step: Step) -> nat {
    match step {
        Step::Done(_) => 0,
        Step::Run(position) => if position < len {
            (len - position) as nat
        } else {
            0
        },
    }
}

/// The pass that a caller makes over `plan` from `step` on, when the hook of
/// each identity ends as `outcome` says.
pub open spec fn run_from(
    plan: Seq<TypeId>,
    outcome: spec_fn(TypeId) -> Result<(), ServiceError>,
    step: Step,
) -> Report
    decreases steps_left(plan.len(), step),
{
    match step {
        Step::Done(result) => Report { invoked: Seq::empty(), result },
        Step::Run(position) => if position < plan.len() {
            let key = plan[position as int];
            let rest = run_from(
                plan,
                outcome,
                step_after(plan.len(), position as int, outcome(key)),
            );
            Report { invoked: seq![key] + rest.invoked, result: rest.result }
        } else {
            Report { invoked: Seq::empty(), result: Ok(()) }
        },
    }
}

/// A whole pass over `plan`.
pub open spec fn run(plan: Seq<TypeId>, outcome: spec_fn(TypeId) -> Result<(), ServiceError>)
    -> Report {
    run_from(plan, outcome, step_at(plan.len(), 0))
}

/// From any position on, a pass in which every remaining hook succeeds runs
/// the rest of the plan, in order, and succeeds.
proof fn lemma_rest_succeeds(
    plan: Seq<TypeId>,
    outcome: spec_fn(TypeId) -> Result<(), ServiceError>,
    from: int,
)
    requires
        plan.len() <= usize::MAX,
        0 <= from <= plan.len(),
        forall|i: int| from <= i < plan.len() ==> outcome(#[trigger] plan[i]) is Ok,
    ensures
        run_from(plan, outcome, step_at(plan.len(), from)) == (Report {
            invoked: plan.skip(from),
            result: Ok(()),
        }),
    decreases plan.len() - from,
{
    if from < plan.len() {
        lemma_rest_succeeds(plan, outcome, from + 1);
    }
    assert(run_from(plan, outcome, step_at(plan.len(), from)).invoked =~= plan.skip(from));
}

/// From any position up to the first failing hook, a pass runs the plan up
/// to and including that hook, and ends with its failure.
proof fn lemma_rest_fails(
    plan: Seq<TypeId>,
    outcome: spec_fn(TypeId) -> Result<(), ServiceError>,
    from: int,
    failing: int,
)
    requires
        plan.len() <= usize::MAX,
        0 <= from <= failing < plan.len(),
        outcome(plan[failing]) is Err,
        forall|i: int| from <= i < failing ==> outcome(#[trigger] plan[i]) is Ok,
    ensures
        run_from(plan, outcome, step_at(plan.len(), from)) == (Report {
            invoked: plan.subrange(from, failing + 1),
            result: outcome(plan[failing]),
        }),
    decreases failing - from,
{
    let report = run_from(plan, outcome, step_at(plan.len(), from));
    if from < failing {
        lemma_rest_fails(plan, outcome, from + 1, failing);
    } else {
        let after = step_after(plan.len(), from, outcome(plan[from]));
        assert(run_from(plan, outcome, after).invoked =~= Seq::<TypeId>::empty());
    }
    assert(report.invoked =~= plan.subrange(from, failing + 1));
}

/// Lifecycle ordering. When every hook succeeds, start-up runs the hooks in
/// the order of registration, tear-down runs them in exactly the reverse
/// order, and both succeed.
pub proof fn lemma_pass_runs_every_hook_in_order(
    registry: RegistryView,
    pass: Pass,
    outcome: spec_fn(TypeId) -> Result<(), ServiceError>,
)
    requires
        registry.order.len() <= usize::MAX,
        forall|i: int|
            0 <= i < registry.order.len() ==> outcome(#[trigger] registry.order[i]) is Ok,
    ensures
        run(registry.plan(pass), outcome).result == Ok::<(), ServiceError>(()),
        pass == Pass::Startup ==> run(registry.plan(pass), outcome).invoked == registry.order,
        pass == Pass::Teardown ==> run(registry.plan(pass), outcome).invoked
            == registry.order.reverse(),
        registry.plan(Pass::Teardown) == registry.plan(Pass::Startup).reverse(),
{
    lemma_rest_succeeds(registry.plan(pass), outcome, 0);
}

/// Fail-fast. When the hook at `failing` is the first of the plan that
/// fails, the pass runs the hooks before it and that hook, in order, and no
/// other; its result is the failure of that hook.
pub proof fn lemma_pass_stops_at_first_failure(
    registry: RegistryView,
    pass: Pass,
    outcome: spec_fn(TypeId) -> Result<(), ServiceError>,
    failing: int,
)
    requires
        registry.well_formed(),
        registry.order.len() <= usize::MAX,
        0 <= failing < registry.plan(pass).len(),
        outcome(registry.plan(pass)[failing]) is Err,
        forall|i: int| 0 <= i < failing ==> outcome(#[trigger] registry.plan(pass)[i]) is Ok,
    ensures
        run(registry.plan(pass), outcome).result == outcome(registry.plan(pass)[failing]),
        run(registry.plan(pass), outcome).invoked == registry.plan(pass).take(failing + 1),
        forall|later: int|
            failing < later < registry.plan(pass).len() ==> !run(
                registry.plan(pass),
                outcome,
            ).invoked.contains(#[trigger] registry.plan(pass)[later]),
{
    let plan = registry.plan(pass);
    lemma_rest_fails(plan, outcome, 0, failing);
    let invoked = plan.take(failing + 1);
    assert forall|later: int| failing < later < plan.len() implies !invoked.contains(
        #[trigger] plan[later],
    ) by {
        if invoked.contains(plan[later]) {
            assert(plan[invoked.index_of(plan[later])] == plan[later]);
        }
    }
}

} // verus!
