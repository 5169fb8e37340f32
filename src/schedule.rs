use vstd::prelude::*;
use crate::stage::{AppState, CoreStage, SystemType, STAGE_COUNT};

verus! {

/// One observable action of the scheduler, by registration index of the
/// system concerned.
pub ghost enum Step {
    /// The system's behaviour was invoked.
    Run(nat),
    /// The system's deferred mutations were applied to the world.
    Flush(nat),
    /// The system was told of a newly observed archetype.
    Notify(nat, nat),
    /// The storage's end-of-tick bookkeeping ran.
    EndTick,
}

/// Which systems a pass over the schedule invokes.
#[derive(PartialEq, Eq, Structural, Clone, Copy, Debug)]
pub enum Selector {
    /// The per-tick sweep in the given state: stateless systems and the
    /// systems of that state.
    Sweep(AppState),
    /// The systems of exactly this kind.
    Exactly(SystemType),
}

impl Selector {
    pub open spec fn spec_selects(self, typ: SystemType) -> bool {
        match self {
            Selector::Sweep(current) => typ == SystemType::Stateless || typ
                == SystemType::Stateful(current),
            Selector::Exactly(t) => typ == t,
        }
    }

    pub fn selects(&self, typ: SystemType) -> (r: bool)
        ensures
            r == self.spec_selects(typ),
    {
        match self {
            Selector::Sweep(current) => typ == SystemType::Stateless || typ
                == SystemType::Stateful(*current),
            Selector::Exactly(t) => typ == *t,
        }
    }
}

/// The indices below `n` whose stage has rank `k`, ascending.
pub open spec fn at_stage(stages: Seq<CoreStage>, k: nat, n: nat) -> Seq<nat>
    decreases n,
{
    if n == 0 {
        seq![]
    } else if stages[n - 1].rank() == k {
        at_stage(stages, k, (n - 1) as nat).push((n - 1) as nat)
    } else {
        at_stage(stages, k, (n - 1) as nat)
    }
}

/// The indices whose stage has rank below `k`, by stage, then by index.
pub open spec fn stage_order_upto(stages: Seq<CoreStage>, k: nat) -> Seq<nat>
    decreases k,
{
    if k == 0 {
        seq![]
    } else {
        stage_order_upto(stages, (k - 1) as nat) + at_stage(stages, (k - 1) as nat, stages.len())
    }
}

/// The execution order of systems registered with the given stages: by stage,
/// and in registration order within a stage.
pub open spec fn stage_order(stages: Seq<CoreStage>) -> Seq<nat> {
    stage_order_upto(stages, STAGE_COUNT as nat)
}

/// The entries of `order` whose kind the selector picks, in order.
pub open spec fn selected(order: Seq<nat>, kinds: Seq<SystemType>, sel: Selector) -> Seq<nat>
    decreases order.len(),
{
    if order.len() == 0 {
        seq![]
    } else if sel.spec_selects(kinds[order.last() as int]) {
        selected(order.drop_last(), kinds, sel).push(order.last())
    } else {
        selected(order.drop_last(), kinds, sel)
    }
}

/// Running each of the given systems in turn, each flushed before the next runs.
pub open spec fn run_steps(idx: Seq<nat>) -> Seq<Step>
    decreases idx.len(),
{
    if idx.len() == 0 {
        seq![]
    } else {
        run_steps(idx.drop_last()) + seq![Step::Run(idx.last()), Step::Flush(idx.last())]
    }
}

/// A pass of the schedule with the given selector.
pub open spec fn pass_steps(stages: Seq<CoreStage>, kinds: Seq<SystemType>, sel: Selector) -> Seq<
    Step,
> {
    run_steps(selected(stage_order(stages), kinds, sel))
}

/// Every one of `n` systems told of archetype `a`, in registration order.
pub open spec fn notify_one(a: nat, n: nat) -> Seq<Step>
    decreases n,
{
    if n == 0 {
        seq![]
    } else {
        notify_one(a, (n - 1) as nat).push(Step::Notify((n - 1) as nat, a))
    }
}

/// Every one of `n` systems told of each archetype in `from..to`, archetype by
/// archetype.
pub open spec fn notify_steps(n: nat, from: nat, to: nat) -> Seq<Step>
    decreases to,
{
    if to <= from {
        seq![]
    } else {
        notify_steps(n, from, (to - 1) as nat) + notify_one((to - 1) as nat, n)
    }
}

/// The state after a tick that applied `transition`.
pub open spec fn next_state(current: AppState, transition: Option<AppState>) -> AppState {
    match transition {
        Some(next) => next,
        None => current,
    }
}

/// The listeners run when a tick applies `transition` while in `current`.
pub open spec fn transition_steps(
    stages: Seq<CoreStage>,
    kinds: Seq<SystemType>,
    current: AppState,
    transition: Option<AppState>,
) -> Seq<Step> {
    match transition {
        Some(next) => pass_steps(stages, kinds, Selector::Exactly(SystemType::OnExit(current)))
            + pass_steps(stages, kinds, Selector::Exactly(SystemType::OnEnter(next))),
        None => seq![],
    }
}

/// A whole tick begun in state `current`: the sweep, the notifications of
/// archetypes `from..mid`, the storage's bookkeeping, the transition, if one
/// was pending when the sweep ended, then the notifications of archetypes
/// `mid..to`.
pub open spec fn tick_steps(
    stages: Seq<CoreStage>,
    kinds: Seq<SystemType>,
    current: AppState,
    from: nat,
    mid: nat,
    to: nat,
    transition: Option<AppState>,
) -> Seq<Step> {
    pass_steps(stages, kinds, Selector::Sweep(current)) + notify_steps(kinds.len(), from, mid)
        + seq![Step::EndTick] + transition_steps(stages, kinds, current, transition)
        + notify_steps(kinds.len(), mid, to)
}

/// What building an application runs: the startup systems, then the listeners
/// that enter the initial state.
pub open spec fn build_steps(stages: Seq<CoreStage>, kinds: Seq<SystemType>) -> Seq<Step> {
    pass_steps(stages, kinds, Selector::Exactly(SystemType::Startup)) + pass_steps(
        stages,
        kinds,
        Selector::Exactly(SystemType::OnEnter(AppState::initial())),
    )
}

} // verus!
