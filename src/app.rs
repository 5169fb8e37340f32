use vstd::prelude::*;
use crate::archetypes::Archetypes;
use crate::schedule::{
    at_stage, notify_one, notify_steps, pass_steps, run_steps, selected, stage_order,
    stage_order_upto, next_state, transition_steps, tick_steps, build_steps, Selector, Step,
};
use crate::stage::{AppState, CoreStage, State, SystemType, STAGE_COUNT};
use crate::theorems::{
    advanced, archetype_range, count_step, counted_step, lemma_count_pair,
    lemma_count_step_concat, lemma_notify_count,
};

verus! {

/// A unit of behaviour that the scheduler invokes with exclusive access to the
/// world. Structural changes that a run queues are held by the system until
/// `apply_buffers` is called.
pub trait System<W> {
    /// Runs the behaviour.
    fn run(&mut self, world: &mut W);

    /// Applies to the world the deferred mutations that the last run queued.
    fn apply_buffers(&mut self, world: &mut W);

    /// Tells the system that the archetype with this index was observed, so
    /// that it can extend its cached matching state.
    fn new_archetype(&mut self, archetype: usize);
}

/// The resource storage that the scheduler is built on.
pub trait Storage {
    /// The storage's own end-of-tick bookkeeping (change-tracking epochs).
    fn end_tick(&mut self);
}

/// What every system is handed: the resources, the application state and
/// the archetypes observed so far. The scheduler owns `state.current`;
/// systems request a change through `State::schedule_transition`.
pub struct World<R> {
    pub resources: R,
    pub state: State,
    pub archetypes: Archetypes,
}

/// A registered system, with how the scheduler has driven it so far.
struct AppSystem<S> {
    system: S,
    stage: CoreStage,
    typ: SystemType,
    runs: Ghost<nat>,
    flushes: Ghost<nat>,
    told: Ghost<Seq<usize>>,
    states: Ghost<Seq<AppState>>,
}

impl<S> AppSystem<S> {
    fn new(system: S, stage: CoreStage, typ: SystemType) -> (r: AppSystem<S>)
        ensures
            r.stage == stage,
            r.typ == typ,
            r.runs@ == 0,
            r.flushes@ == 0,
            r.told@ == Seq::<usize>::empty(),
            r.states@ == Seq::<AppState>::empty(),
    {
        AppSystem {
            system,
            stage,
            typ,
            runs: Ghost(0),
            flushes: Ghost(0),
            told: Ghost(Seq::empty()),
            states: Ghost(Seq::empty()),
        }
    }

    /// Invokes the system's behaviour, and counts the invocation with the
    /// state current when it was made.
    fn run<R>(&mut self, world: &mut World<R>) where S: System<World<R>>
        ensures
            final(self).stage == old(self).stage,
            final(self).typ == old(self).typ,
            final(self).runs@ == old(self).runs@ + 1,
            final(self).flushes@ == old(self).flushes@,
            final(self).told@ == old(self).told@,
            final(self).states@ == old(self).states@.push(old(world).state.current),
    {
        self.states = Ghost(self.states@.push(world.state.current));
        self.system.run(world);
        self.runs = Ghost(self.runs@ + 1);
    }

    /// Applies the system's deferred mutations, and counts it.
    fn flush<W>(&mut self, world: &mut W) where S: System<W>
        ensures
            final(self).stage == old(self).stage,
            final(self).typ == old(self).typ,
            final(self).runs@ == old(self).runs@,
            final(self).flushes@ == old(self).flushes@ + 1,
            final(self).told@ == old(self).told@,
            final(self).states@ == old(self).states@,
    {
        self.system.apply_buffers(world);
        self.flushes = Ghost(self.flushes@ + 1);
    }

    /// Tells the system of archetype `a`, and records it.
    fn notify<W>(&mut self, a: usize) where S: System<W>
        ensures
            final(self).stage == old(self).stage,
            final(self).typ == old(self).typ,
            final(self).runs@ == old(self).runs@,
            final(self).flushes@ == old(self).flushes@,
            final(self).told@ == old(self).told@.push(a),
            final(self).states@ == old(self).states@,
    {
        self.system.new_archetype(a);
        self.told = Ghost(self.told@.push(a));
    }
}

/// A built application: the registered systems in their execution order,
/// ready to be ticked.
pub struct App<R, S> {
    pub world: World<R>,
    systems: Vec<AppSystem<S>>,
    order: Vec<usize>,
    archetype_generation: usize,
    log: Ghost<Seq<Step>>,
    sweep_generation: Ghost<nat>,
    sweep_state: Ghost<State>,
    last_transition: Ghost<Option<AppState>>,
}

pub open spec fn nat_seq(s: Seq<usize>) -> Seq<nat> {
    s.map_values(|x: usize| x as nat)
}

/// `k` invocations, all in state `s`.
pub open spec fn repeat_state(s: AppState, k: nat) -> Seq<AppState> {
    Seq::new(k, |j: int| s)
}

/// Each system's invocations in `after` are those in `before` followed by
/// one in state `s` for each run of it in `steps`.
pub open spec fn invoked_in(
    before: Seq<Seq<AppState>>,
    after: Seq<Seq<AppState>>,
    steps: Seq<Step>,
    s: AppState,
) -> bool {
    &&& after.len() == before.len()
    &&& forall|i: int|
        0 <= i < before.len() ==> #[trigger] after[i] == before[i] + repeat_state(
            s,
            count_step(steps, Step::Run(i as nat)),
        )
}

/// The states in which system `i` is invoked when a tick applies
/// `transition` while in `current`: its exit runs see the state left, its
/// enter runs the state entered.
pub open spec fn transition_states(
    stages: Seq<CoreStage>,
    kinds: Seq<SystemType>,
    current: AppState,
    transition: Option<AppState>,
    i: nat,
) -> Seq<AppState> {
    match transition {
        Some(next) => repeat_state(
            current,
            count_step(pass_steps(stages, kinds, Selector::Exactly(SystemType::OnExit(current))), Step::Run(i)),
        ) + repeat_state(
            next,
            count_step(pass_steps(stages, kinds, Selector::Exactly(SystemType::OnEnter(next))), Step::Run(i)),
        ),
        None => seq![],
    }
}

pub open spec fn max(a: nat, b: nat) -> nat {
    if a >= b {
        a
    } else {
        b
    }
}

impl<R: Storage, S: System<World<R>>> App<R, S> {
    /// An empty builder around the given resources.
    pub fn new(resources: R) -> (r: AppBuilder<R, S>)
        ensures
            r.built_world() is Some,
            r.built_world()->Some_0.resources == resources,
            r.built_world()->Some_0.state.spec_current() == AppState::initial(),
            r.built_world()->Some_0.state.spec_pending() is None,
            r.built_world()->Some_0.archetypes@ == Seq::<u64>::empty(),
            r.stages() == Seq::<CoreStage>::empty(),
            r.kinds() == Seq::<SystemType>::empty(),
    {
        AppBuilder::new(resources)
    }

    /// The stage of each registered system, by registration index.
    pub closed spec fn stages(&self) -> Seq<CoreStage> {
        self.systems@.map_values(|s: AppSystem<S>| s.stage)
    }

    /// The kind of each registered system, by registration index.
    pub closed spec fn kinds(&self) -> Seq<SystemType> {
        self.systems@.map_values(|s: AppSystem<S>| s.typ)
    }

    /// How many times each system has been invoked, by registration index.
    pub closed spec fn runs(&self) -> Seq<nat> {
        self.systems@.map_values(|s: AppSystem<S>| s.runs@)
    }

    /// How many times each system's deferred mutations have been applied.
    pub closed spec fn flushes(&self) -> Seq<nat> {
        self.systems@.map_values(|s: AppSystem<S>| s.flushes@)
    }

    /// The archetypes each system has been told of, in order.
    pub closed spec fn told(&self) -> Seq<Seq<usize>> {
        self.systems@.map_values(|s: AppSystem<S>| s.told@)
    }

    /// The state current at each invocation of each system, in order.
    pub closed spec fn states(&self) -> Seq<Seq<AppState>> {
        self.systems@.map_values(|s: AppSystem<S>| s.states@)
    }

    /// The world, with its resources, state and archetypes.
    pub closed spec fn spec_world(&self) -> World<R> {
        self.world
    }

    /// The application state held in the world.
    pub closed spec fn state(&self) -> State {
        self.world.state
    }

    /// How many archetypes the world has observed.
    pub closed spec fn observed(&self) -> nat {
        self.world.archetypes@.len()
    }

    /// Everything the scheduler has done since the application was built.
    pub closed spec fn log(&self) -> Seq<Step> {
        self.log@
    }

    /// The number of archetypes that every system has been told of.
    pub closed spec fn generation(&self) -> nat {
        self.archetype_generation as nat
    }

    /// The number of archetypes every system had been told of after the last
    /// sweep.
    pub closed spec fn sweep_generation(&self) -> nat {
        self.sweep_generation@
    }

    /// The application state as the last sweep left it.
    pub closed spec fn sweep_state(&self) -> State {
        self.sweep_state@
    }

    /// The transition that the last tick applied, if any.
    pub closed spec fn last_transition(&self) -> Option<AppState> {
        self.last_transition@
    }

    pub closed spec fn wf(&self) -> bool {
        &&& nat_seq(self.order@) == stage_order(self.stages())
        &&& forall|j: int| 0 <= j < self.order@.len() ==> self.order@[j] < self.systems@.len()
    }

    /// Every registered system has a stage, a kind and counters.
    pub proof fn lemma_views_len(&self)
        ensures
            self.stages().len() == self.kinds().len(),
            self.runs().len() == self.kinds().len(),
            self.flushes().len() == self.kinds().len(),
            self.told().len() == self.kinds().len(),
            self.states().len() == self.kinds().len(),
    {
    }

    /// Runs the systems that `sel` picks, in stage order, flushing each one's
    /// deferred mutations before the next one runs.
    fn run_systems(&mut self, sel: Selector)
        requires
            old(self).wf(),
        ensures
            final(self).wf(),
            final(self).stages() == old(self).stages(),
            final(self).kinds() == old(self).kinds(),
            final(self).told() == old(self).told(),
            final(self).generation() == old(self).generation(),
            final(self).sweep_generation() == old(self).sweep_generation(),
            final(self).sweep_state() == old(self).sweep_state(),
            final(self).last_transition() == old(self).last_transition(),
            final(self).state().spec_current() == old(self).state().spec_current(),
            final(self).log() == old(self).log() + pass_steps(old(self).stages(), old(self).kinds(), sel),
            advanced(old(self).runs(), final(self).runs(), pass_steps(old(self).stages(), old(self).kinds(), sel), false),
            advanced(old(self).flushes(), final(self).flushes(), pass_steps(old(self).stages(), old(self).kinds(), sel), true),
            invoked_in(old(self).states(), final(self).states(), pass_steps(old(self).stages(), old(self).kinds(), sel), old(self).state().spec_current()),
    {
        let ghost states0 = self.states();
        let ghost cur0 = self.world.state.current;
        let ghost stages = self.stages();
        let ghost kinds = self.kinds();
        let ghost told = self.told();
        let ghost runs0 = self.runs();
        let ghost flushes0 = self.flushes();
        let ghost order = stage_order(stages);
        let ghost log0 = self.log@;
        let n = self.order.len();
        let mut j: usize = 0;
        while j < n
            invariant
                n == self.order@.len(),
                j <= n,
                self.wf(),
                self.stages() == stages,
                self.kinds() == kinds,
                self.told() == told,
                order == stage_order(stages),
                self.generation() == old(self).generation(),
                self.sweep_generation() == old(self).sweep_generation(),
                self.sweep_state() == old(self).sweep_state(),
                self.last_transition() == old(self).last_transition(),
                self.state().spec_current() == old(self).state().spec_current(),
                self.log@ == log0 + run_steps(selected(order.take(j as int), kinds, sel)),
                advanced(runs0, self.runs(), run_steps(selected(order.take(j as int), kinds, sel)), false),
                advanced(flushes0, self.flushes(), run_steps(selected(order.take(j as int), kinds, sel)), true),
                invoked_in(states0, self.states(), run_steps(selected(order.take(j as int), kinds, sel)), cur0),
                cur0 == old(self).state().spec_current(),
            decreases n - j,
        {
            let i = self.order[j];
            assert(order[j as int] == i as nat);
            assert(kinds[i as int] == self.systems@[i as int].typ);
            let ghost runs1 = self.runs();
            let ghost flushes1 = self.flushes();
            let ghost states1 = self.states();
            let ghost prev = selected(order.take(j as int), kinds, sel);
            if sel.selects(self.systems[i].typ) {
                let current = self.world.state.current;
                self.systems[i].run(&mut self.world);
                self.systems[i].flush(&mut self.world);
                self.world.state.current = current;
                self.log = Ghost(self.log@ + seq![Step::Run(i as nat), Step::Flush(i as nat)]);
            }
            proof {
                assert(self.stages() =~= stages);
                assert(self.kinds() =~= kinds);
                assert(self.told() =~= told);
                self.lemma_views_len();
                let cur = order.take(j + 1);
                assert(cur.drop_last() =~= order.take(j as int));
                assert(cur.last() == i as nat);
                assert(prev.push(i as nat).drop_last() =~= prev);
                let pair = seq![Step::Run(i as nat), Step::Flush(i as nat)];
                if sel.spec_selects(kinds[i as int]) {
                    assert(selected(cur, kinds, sel) == prev.push(i as nat));
                    assert(run_steps(prev.push(i as nat)) == run_steps(prev) + pair);
                    assert(self.log@ =~= log0 + run_steps(selected(cur, kinds, sel)));
                    assert forall|k: int| 0 <= k < runs0.len() implies #[trigger] self.runs()[k] == runs0[k] + count_step(
                        run_steps(selected(cur, kinds, sel)),
                        counted_step(false, k as nat),
                    ) by {
                        lemma_count_step_concat(run_steps(prev), pair, counted_step(false, k as nat));
                        lemma_count_pair(i as nat, counted_step(false, k as nat));
                        assert(runs1[k] == runs0[k] + count_step(run_steps(prev), counted_step(false, k as nat)));
                    }
                    assert forall|k: int| 0 <= k < flushes0.len() implies #[trigger] self.flushes()[k] == flushes0[k] + count_step(
                        run_steps(selected(cur, kinds, sel)),
                        counted_step(true, k as nat),
                    ) by {
                        lemma_count_step_concat(run_steps(prev), pair, counted_step(true, k as nat));
                        lemma_count_pair(i as nat, counted_step(true, k as nat));
                        assert(flushes1[k] == flushes0[k] + count_step(run_steps(prev), counted_step(true, k as nat)));
                    }
                    assert forall|k: int| 0 <= k < states0.len() implies #[trigger] self.states()[k] == states0[k] + repeat_state(
                        cur0,
                        count_step(run_steps(selected(cur, kinds, sel)), Step::Run(k as nat)),
                    ) by {
                        lemma_count_step_concat(run_steps(prev), pair, Step::Run(k as nat));
                        lemma_count_pair(i as nat, Step::Run(k as nat));
                        let c = count_step(run_steps(prev), Step::Run(k as nat));
                        assert(states1[k] == states0[k] + repeat_state(cur0, c));
                        if k == i {
                            assert(self.states()[k] == states1[k].push(cur0));
                            assert(states0[k] + repeat_state(cur0, c + 1) =~= (states0[k] + repeat_state(cur0, c)).push(cur0));
                        } else {
                            assert(self.states()[k] == states1[k]);
                        }
                    }
                } else {
                    assert(selected(cur, kinds, sel) == prev);
                    assert(self.runs() =~= runs1);
                    assert(self.flushes() =~= flushes1);
                    assert(self.states() =~= states1);
                }
            }
            j += 1;
        }
        proof {
            assert(order.take(n as int) =~= order);
        }
    }

    /// Tells every system of each archetype that the world has observed since
    /// the last call, archetype by archetype, so that each can extend its
    /// matching state instead of rescanning the world.
    fn update_archetypes(&mut self)
        requires
            old(self).wf(),
        ensures
            final(self).wf(),
            final(self).stages() == old(self).stages(),
            final(self).kinds() == old(self).kinds(),
            final(self).runs() == old(self).runs(),
            final(self).flushes() == old(self).flushes(),
            final(self).states() == old(self).states(),
            final(self).spec_world() == old(self).spec_world(),
            final(self).sweep_generation() == old(self).sweep_generation(),
            final(self).sweep_state() == old(self).sweep_state(),
            final(self).last_transition() == old(self).last_transition(),
            final(self).generation() == max(old(self).generation(), old(self).observed()),
            final(self).told().len() == old(self).told().len(),
            forall|i: int|
                0 <= i < old(self).told().len() ==> #[trigger] final(self).told()[i] == old(self).told()[i]
                    + archetype_range(old(self).generation(), final(self).generation()),
            final(self).log() == old(self).log() + notify_steps(
                old(self).kinds().len(),
                old(self).generation(),
                final(self).generation(),
            ),
    {
        let ghost stages = self.stages();
        let ghost kinds = self.kinds();
        let ghost runs = self.runs();
        let ghost flushes = self.flushes();
        let ghost states = self.states();
        let ghost told0 = self.told();
        let ghost log0 = self.log@;
        proof {
            self.lemma_views_len();
        }
        let old_generation = self.archetype_generation;
        let new_generation = self.world.archetypes.generation();
        if new_generation <= old_generation {
            assert(self.log@ =~= log0 + notify_steps(kinds.len(), old_generation as nat, old_generation as nat));
            assert forall|i: int| 0 <= i < told0.len() implies #[trigger] self.told()[i] == told0[i]
                + archetype_range(old_generation as nat, old_generation as nat) by {
                assert(told0[i] + archetype_range(old_generation as nat, old_generation as nat) =~= told0[i]);
            }
            return ;
        }
        let n = self.systems.len();
        let mut a = old_generation;
        while a < new_generation
            invariant
                old_generation <= a <= new_generation,
                n == self.systems@.len(),
                n == kinds.len(),
                n == told0.len(),
                self.wf(),
                self.stages() == stages,
                self.kinds() == kinds,
                self.runs() == runs,
                self.flushes() == flushes,
                self.states() == states,
                self.told().len() == n,
                forall|i: int| 0 <= i < n ==> #[trigger] self.told()[i] == told0[i] + archetype_range(old_generation as nat, a as nat),
                self.archetype_generation == old_generation,
                self.spec_world() == old(self).spec_world(),
                self.sweep_generation() == old(self).sweep_generation(),
                self.sweep_state() == old(self).sweep_state(),
                self.last_transition() == old(self).last_transition(),
                self.log@ == log0 + notify_steps(n as nat, old_generation as nat, a as nat),
            decreases new_generation - a,
        {
            let ghost outer = self.log@;
            let ghost told_a = self.told();
            let mut s: usize = 0;
            while s < n
                invariant
                    s <= n,
                    n == self.systems@.len(),
                    n == kinds.len(),
                    self.wf(),
                    self.stages() == stages,
                    self.kinds() == kinds,
                    self.runs() == runs,
                    self.flushes() == flushes,
                    self.states() == states,
                    self.told().len() == n,
                    told_a.len() == n,
                    forall|i: int| 0 <= i < s ==> #[trigger] self.told()[i] == told_a[i].push(a),
                    forall|i: int| s <= i < n ==> #[trigger] self.told()[i] == told_a[i],
                    self.archetype_generation == old_generation,
                    self.spec_world() == old(self).spec_world(),
                    self.sweep_generation() == old(self).sweep_generation(),
                    self.sweep_state() == old(self).sweep_state(),
                    self.last_transition() == old(self).last_transition(),
                    self.log@ == outer + notify_one(a as nat, s as nat),
                decreases n - s,
            {
                let ghost tb = self.told();
                self.systems[s].notify::<World<R>>(a);
                self.log = Ghost(self.log@.push(Step::Notify(s as nat, a as nat)));
                proof {
                    assert(self.told() =~= tb.update(s as int, tb[s as int].push(a)));
                    assert(self.stages() =~= stages);
                    assert(self.kinds() =~= kinds);
                    assert(self.runs() =~= runs);
                    assert(self.flushes() =~= flushes);
                    assert(self.states() =~= states);
                    assert(self.log@ =~= outer + notify_one(a as nat, (s + 1) as nat));
                }
                s += 1;
            }
            proof {
                assert(notify_steps(n as nat, old_generation as nat, (a + 1) as nat)
                    == notify_steps(n as nat, old_generation as nat, a as nat) + notify_one(a as nat, n as nat));
                assert(self.log@ =~= log0 + notify_steps(n as nat, old_generation as nat, (a + 1) as nat));
                assert forall|i: int| 0 <= i < n implies #[trigger] self.told()[i] == told0[i] + archetype_range(old_generation as nat, (a + 1) as nat) by {
                    assert(told0[i] + archetype_range(old_generation as nat, (a + 1) as nat)
                        =~= (told0[i] + archetype_range(old_generation as nat, a as nat)).push(a));
                }
            }
            a += 1;
        }
        self.archetype_generation = new_generation;
    }

    /// Applies the pending transition, if any: the request is taken, the
    /// exit listeners of the current state run while it is still current,
    /// the state switches, then the enter listeners of the new state run. A
    /// transition that a listener requests stays pending for the next tick.
    /// With nothing pending, nothing happens.
    pub fn apply_state_transition(&mut self)
        requires
            old(self).wf(),
        ensures
            final(self).wf(),
            final(self).stages() == old(self).stages(),
            final(self).kinds() == old(self).kinds(),
            final(self).told() == old(self).told(),
            final(self).generation() == old(self).generation(),
            final(self).sweep_generation() == old(self).sweep_generation(),
            final(self).sweep_state() == old(self).sweep_state(),
            final(self).last_transition() == old(self).state().spec_pending(),
            final(self).state().spec_current() == next_state(old(self).state().spec_current(), old(self).state().spec_pending()),
            old(self).state().spec_pending() is None ==> final(self).spec_world() == old(self).spec_world(),
            final(self).states().len() == old(self).states().len(),
            forall|i: int|
                0 <= i < old(self).states().len() ==> #[trigger] final(self).states()[i] == old(self).states()[i]
                    + transition_states(
                    old(self).stages(),
                    old(self).kinds(),
                    old(self).state().spec_current(),
                    old(self).state().spec_pending(),
                    i as nat,
                ),
            final(self).log() == old(self).log() + transition_steps(
                old(self).stages(),
                old(self).kinds(),
                old(self).state().spec_current(),
                old(self).state().spec_pending(),
            ),
            advanced(old(self).runs(), final(self).runs(), transition_steps(
                old(self).stages(),
                old(self).kinds(),
                old(self).state().spec_current(),
                old(self).state().spec_pending(),
            ), false),
            advanced(old(self).flushes(), final(self).flushes(), transition_steps(
                old(self).stages(),
                old(self).kinds(),
                old(self).state().spec_current(),
                old(self).state().spec_pending(),
            ), true),
    {
        let ghost log0 = self.log@;
        let ghost runs0 = self.runs();
        let ghost flushes0 = self.flushes();
        let ghost states0 = self.states();
        proof {
            self.lemma_views_len();
        }
        let state = self.world.state;
        match state.pending {
            Some(next) => {
                let ghost stages = self.stages();
                let ghost kinds = self.kinds();
                self.world.state.pending = None;
                self.run_systems(Selector::Exactly(SystemType::OnExit(state.current)));
                let ghost runs1 = self.runs();
                let ghost flushes1 = self.flushes();
                let ghost states1 = self.states();
                self.world.state.current = next;
                self.run_systems(Selector::Exactly(SystemType::OnEnter(next)));
                self.last_transition = Ghost(Some(next));
                let ghost x = pass_steps(stages, kinds, Selector::Exactly(SystemType::OnExit(state.current)));
                let ghost y = pass_steps(stages, kinds, Selector::Exactly(SystemType::OnEnter(next)));
                assert(self.log@ =~= log0 + transition_steps(stages, kinds, state.current, state.pending));
                assert forall|k: int| 0 <= k < runs0.len() implies #[trigger] self.runs()[k] == runs0[k] + count_step(
                    x + y,
                    counted_step(false, k as nat),
                ) by {
                    lemma_count_step_concat(x, y, counted_step(false, k as nat));
                    assert(runs1[k] == runs0[k] + count_step(x, counted_step(false, k as nat)));
                }
                assert forall|k: int| 0 <= k < flushes0.len() implies #[trigger] self.flushes()[k] == flushes0[k] + count_step(
                    x + y,
                    counted_step(true, k as nat),
                ) by {
                    lemma_count_step_concat(x, y, counted_step(true, k as nat));
                    assert(flushes1[k] == flushes0[k] + count_step(x, counted_step(true, k as nat)));
                }
                assert forall|i: int| 0 <= i < states0.len() implies #[trigger] self.states()[i] == states0[i]
                    + transition_states(stages, kinds, state.current, state.pending, i as nat) by {
                    assert(states1[i] == states0[i] + repeat_state(state.current, count_step(x, Step::Run(i as nat))));
                    assert(states0[i] + transition_states(stages, kinds, state.current, state.pending, i as nat)
                        =~= states1[i] + repeat_state(next, count_step(y, Step::Run(i as nat))));
                }
            },
            None => {
                assert forall|i: int| 0 <= i < states0.len() implies #[trigger] self.states()[i] == states0[i]
                    + transition_states(self.stages(), self.kinds(), state.current, state.pending, i as nat) by {
                    assert(states0[i] + Seq::<AppState>::empty() =~= states0[i]);
                }
                self.last_transition = Ghost(None);
                assert(self.log@ =~= log0 + transition_steps(
                    self.stages(),
                    self.kinds(),
                    state.current,
                    state.pending,
                ));
            },
        }
    }

    /// One tick: the sweep over the schedule in the state current at its
    /// start, the archetype notifications, the storage's bookkeeping, at most
    /// one state transition, then the notifications of archetypes that the
    /// transition's listeners made.
    pub fn dispatch_update(&mut self)
        requires
            old(self).wf(),
        ensures
            final(self).wf(),
            final(self).stages() == old(self).stages(),
            final(self).kinds() == old(self).kinds(),
            old(self).generation() <= final(self).sweep_generation() <= final(self).generation(),
            final(self).generation() == max(final(self).sweep_generation(), final(self).observed()),
            final(self).told().len() == old(self).told().len(),
            forall|i: int|
                0 <= i < old(self).told().len() ==> #[trigger] final(self).told()[i] == old(self).told()[i]
                    + archetype_range(old(self).generation(), final(self).generation()),
            final(self).sweep_state().spec_current() == old(self).state().spec_current(),
            final(self).last_transition() == final(self).sweep_state().spec_pending(),
            final(self).states().len() == old(self).states().len(),
            forall|i: int|
                0 <= i < old(self).states().len() ==> #[trigger] final(self).states()[i] == old(self).states()[i]
                    + repeat_state(
                    old(self).state().spec_current(),
                    count_step(pass_steps(old(self).stages(), old(self).kinds(), Selector::Sweep(old(self).state().spec_current())), Step::Run(i as nat)),
                ) + transition_states(
                    old(self).stages(),
                    old(self).kinds(),
                    old(self).state().spec_current(),
                    final(self).last_transition(),
                    i as nat,
                ),
            final(self).state().spec_current() == next_state(old(self).state().spec_current(), final(self).last_transition()),
            final(self).log() == old(self).log() + tick_steps(
                old(self).stages(),
                old(self).kinds(),
                old(self).state().spec_current(),
                old(self).generation(),
                final(self).sweep_generation(),
                final(self).generation(),
                final(self).last_transition(),
            ),
            advanced(old(self).runs(), final(self).runs(), final(self).log().subrange(old(self).log().len() as int, final(self).log().len() as int), false),
            advanced(old(self).flushes(), final(self).flushes(), final(self).log().subrange(old(self).log().len() as int, final(self).log().len() as int), true),
    {
        let ghost log0 = self.log@;
        let ghost runs0 = self.runs();
        let ghost flushes0 = self.flushes();
        let ghost told0 = self.told();
        let ghost states0 = self.states();
        let ghost g0 = self.generation();
        let ghost stages = self.stages();
        let ghost kinds = self.kinds();
        proof {
            self.lemma_views_len();
        }
        let current_state = self.world.state.current;
        self.run_systems(Selector::Sweep(current_state));
        let ghost runs1 = self.runs();
        let ghost flushes1 = self.flushes();
        let ghost states1 = self.states();
        self.sweep_state = Ghost(self.world.state);
        self.update_archetypes();
        self.sweep_generation = Ghost(self.generation());
        let ghost told1 = self.told();
        self.world.resources.end_tick();
        self.log = Ghost(self.log@.push(Step::EndTick));
        self.apply_state_transition();
        let ghost runs2 = self.runs();
        let ghost flushes2 = self.flushes();
        let ghost told2 = self.told();
        let ghost gm = self.generation();
        self.update_archetypes();
        let ghost sweep = pass_steps(stages, kinds, Selector::Sweep(current_state));
        let ghost tr = transition_steps(stages, kinds, current_state, self.last_transition());
        let ghost n1 = notify_steps(kinds.len(), g0, gm);
        let ghost n2 = notify_steps(kinds.len(), gm, self.generation());
        let ghost e = seq![Step::EndTick];
        assert(self.log@ =~= log0 + tick_steps(stages, kinds, current_state, g0, gm, self.generation(), self.last_transition()));
        let ghost added = self.log@.subrange(log0.len() as int, self.log@.len() as int);
        assert(added =~= sweep + n1 + e + tr + n2);
        assert forall|k: int| 0 <= k < runs0.len() implies #[trigger] self.runs()[k] == runs0[k] + count_step(added, counted_step(false, k as nat)) by {
            let st = counted_step(false, k as nat);
            lemma_count_step_concat(sweep, n1, st);
            lemma_count_step_concat(sweep + n1, e, st);
            lemma_count_step_concat(sweep + n1 + e, tr, st);
            lemma_count_step_concat(sweep + n1 + e + tr, n2, st);
            lemma_notify_count(kinds.len(), g0, gm, st);
            lemma_notify_count(kinds.len(), gm, self.generation(), st);
            assert(runs1[k] == runs0[k] + count_step(sweep, st));
            assert(runs2[k] == runs1[k] + count_step(tr, st));
        }
        assert forall|k: int| 0 <= k < flushes0.len() implies #[trigger] self.flushes()[k] == flushes0[k] + count_step(added, counted_step(true, k as nat)) by {
            let st = counted_step(true, k as nat);
            lemma_count_step_concat(sweep, n1, st);
            lemma_count_step_concat(sweep + n1, e, st);
            lemma_count_step_concat(sweep + n1 + e, tr, st);
            lemma_count_step_concat(sweep + n1 + e + tr, n2, st);
            lemma_notify_count(kinds.len(), g0, gm, st);
            lemma_notify_count(kinds.len(), gm, self.generation(), st);
            assert(flushes1[k] == flushes0[k] + count_step(sweep, st));
            assert(flushes2[k] == flushes1[k] + count_step(tr, st));
        }
        assert forall|i: int| 0 <= i < states0.len() implies #[trigger] self.states()[i] == states0[i] + repeat_state(
            current_state,
            count_step(sweep, Step::Run(i as nat)),
        ) + transition_states(stages, kinds, current_state, self.last_transition(), i as nat) by {
            assert(states1[i] == states0[i] + repeat_state(current_state, count_step(sweep, Step::Run(i as nat))));
        }
        assert forall|i: int| 0 <= i < told0.len() implies #[trigger] self.told()[i] == told0[i] + archetype_range(g0, self.generation()) by {
            assert(told1[i] == told0[i] + archetype_range(g0, gm));
            assert(told0[i] + archetype_range(g0, self.generation())
                =~= told0[i] + archetype_range(g0, gm) + archetype_range(gm, self.generation()));
        }
    }
}

/// The registration indices of `systems`, ordered by stage and, within a
/// stage, by registration.
fn execution_order<S>(systems: &Vec<AppSystem<S>>) -> (order: Vec<usize>)
    ensures
        nat_seq(order@) == stage_order(systems@.map_values(|s: AppSystem<S>| s.stage)),
        forall|j: int| 0 <= j < order@.len() ==> order@[j] < systems@.len(),
{
    let ghost stages = systems@.map_values(|s: AppSystem<S>| s.stage);
    let n = systems.len();
    let mut order: Vec<usize> = Vec::new();
    let mut k: usize = 0;
    while k < STAGE_COUNT
        invariant
            k <= STAGE_COUNT,
            n == systems@.len(),
            stages == systems@.map_values(|s: AppSystem<S>| s.stage),
            nat_seq(order@) == stage_order_upto(stages, k as nat),
            forall|j: int| 0 <= j < order@.len() ==> order@[j] < n,
        decreases STAGE_COUNT - k,
    {
        let mut i: usize = 0;
        while i < n
            invariant
                i <= n,
                k < STAGE_COUNT,
                n == systems@.len(),
                stages == systems@.map_values(|s: AppSystem<S>| s.stage),
                nat_seq(order@) == stage_order_upto(stages, k as nat) + at_stage(stages, k as nat, i as nat),
                forall|j: int| 0 <= j < order@.len() ==> order@[j] < n,
            decreases n - i,
        {
            let ghost prev = order@;
            if systems[i].stage.index() == k {
                order.push(i);
                assert(nat_seq(order@) =~= nat_seq(prev).push(i as nat));
            }
            assert(stages[i as int] == systems@[i as int].stage);
            i += 1;
        }
        assert(stages.len() == n);
        k += 1;
    }
    order
}

/// An ordered list of systems to register together.
pub struct SystemList<S> {
    systems: Vec<S>,
}

impl<S> SystemList<S> {
    /// The systems of the list, in order.
    pub closed spec fn items(&self) -> Seq<S> {
        self.systems@
    }

    /// The number of systems in the list.
    pub open spec fn len(&self) -> nat {
        self.items().len()
    }

    pub fn new() -> (r: SystemList<S>)
        ensures
            r.items() == Seq::<S>::empty(),
    {
        SystemList { systems: Vec::new() }
    }

    /// The list with `system` added at its end.
    pub fn with(self, system: S) -> (r: SystemList<S>)
        ensures
            r.items() == self.items().push(system),
    {
        let mut systems = self.systems;
        systems.push(system);
        SystemList { systems }
    }
}

/// Registrations collected before an application is built.
pub struct AppBuilder<R, S> {
    pub world: Option<World<R>>,
    systems: Vec<AppSystem<S>>,
}

impl<R: Storage, S: System<World<R>>> AppBuilder<R, S> {
    /// The world that `build` will hand to the application; `None` once built.
    pub closed spec fn built_world(&self) -> Option<World<R>> {
        self.world
    }

    fn new(resources: R) -> (r: AppBuilder<R, S>)
        ensures
            r.built_world() is Some,
            r.built_world()->Some_0.resources == resources,
            r.built_world()->Some_0.state.spec_current() == AppState::initial(),
            r.built_world()->Some_0.state.spec_pending() is None,
            r.built_world()->Some_0.archetypes@ == Seq::<u64>::empty(),
            r.stages() == Seq::<CoreStage>::empty(),
            r.kinds() == Seq::<SystemType>::empty(),
    {
        let b = AppBuilder {
            world: Some(World { resources, state: State::new(), archetypes: Archetypes::new() }),
            systems: Vec::new(),
        };
        proof {
            assert(b.stages() =~= Seq::<CoreStage>::empty());
            assert(b.kinds() =~= Seq::<SystemType>::empty());
        }
        b
    }

    /// The stage of each registered system, by registration index.
    pub closed spec fn stages(&self) -> Seq<CoreStage> {
        self.systems@.map_values(|s: AppSystem<S>| s.stage)
    }

    /// The kind of each registered system, by registration index.
    pub closed spec fn kinds(&self) -> Seq<SystemType> {
        self.systems@.map_values(|s: AppSystem<S>| s.typ)
    }

    /// How many times each registered system has been invoked.
    pub closed spec fn runs(&self) -> Seq<nat> {
        self.systems@.map_values(|s: AppSystem<S>| s.runs@)
    }

    /// How many times each registered system's mutations have been applied.
    pub closed spec fn flushes(&self) -> Seq<nat> {
        self.systems@.map_values(|s: AppSystem<S>| s.flushes@)
    }

    /// The archetypes each registered system has been told of.
    pub closed spec fn told(&self) -> Seq<Seq<usize>> {
        self.systems@.map_values(|s: AppSystem<S>| s.told@)
    }

    /// The state current at each invocation of each registered system.
    pub closed spec fn states(&self) -> Seq<Seq<AppState>> {
        self.systems@.map_values(|s: AppSystem<S>| s.states@)
    }

    /// Every registered system has a stage, a kind and counters.
    pub proof fn lemma_views_len(&self)
        ensures
            self.stages().len() == self.kinds().len(),
            self.runs().len() == self.kinds().len(),
            self.flushes().len() == self.kinds().len(),
            self.told().len() == self.kinds().len(),
            self.states().len() == self.kinds().len(),
    {
    }

    fn push_system(&mut self, system: S, stage: CoreStage, typ: SystemType) -> (r: &mut Self)
        ensures
            r.built_world() == old(self).built_world(),
            r.stages() == old(self).stages().push(stage),
            r.kinds() == old(self).kinds().push(typ),
            *final(self) == *final(r),
    {
        self.systems.push(AppSystem::new(system, stage, typ));
        proof {
            assert(self.stages() =~= old(self).stages().push(stage));
            assert(self.kinds() =~= old(self).kinds().push(typ));
        }
        self
    }

    /// Registers a system that runs in every tick, at the `Update` stage.
    pub fn add_system(&mut self, system: S) -> (r: &mut Self)
        ensures
            r.built_world() == old(self).built_world(),
            r.stages() == old(self).stages().push(CoreStage::Update),
            r.kinds() == old(self).kinds().push(SystemType::Stateless),
            *final(self) == *final(r),
    {
        self.add_system_to_stage(CoreStage::Update, system)
    }

    /// Registers a system that runs in every tick, at the given stage.
    pub fn add_system_to_stage(&mut self, stage: CoreStage, system: S) -> (r: &mut Self)
        ensures
            r.built_world() == old(self).built_world(),
            r.stages() == old(self).stages().push(stage),
            r.kinds() == old(self).kinds().push(SystemType::Stateless),
            *final(self) == *final(r),
    {
        self.push_system(system, stage, SystemType::Stateless)
    }

    /// Registers a system that runs once, while the application is built.
    pub fn add_startup_system(&mut self, system: S) -> (r: &mut Self)
        ensures
            r.built_world() == old(self).built_world(),
            r.stages() == old(self).stages().push(CoreStage::First),
            r.kinds() == old(self).kinds().push(SystemType::Startup),
            *final(self) == *final(r),
    {
        self.push_system(system, CoreStage::First, SystemType::Startup)
    }

    /// Registers a system that runs at the given stage in every tick that
    /// begins in `state`.
    pub fn add_system_stateful(&mut self, stage: CoreStage, state: AppState, system: S) -> (r:
        &mut Self)
        ensures
            r.built_world() == old(self).built_world(),
            r.stages() == old(self).stages().push(stage),
            r.kinds() == old(self).kinds().push(SystemType::Stateful(state)),
            *final(self) == *final(r),
    {
        self.push_system(system, stage, SystemType::Stateful(state))
    }

    /// Registers each system of the list, in order, at the given stage: in
    /// every tick if `state` is `None`, else in the ticks of that state.
    pub fn add_system_list(&mut self, stage: CoreStage, state: Option<AppState>, list: SystemList<S>) -> (r: &mut Self)
        ensures
            r.built_world() == old(self).built_world(),
            r.stages() == old(self).stages() + Seq::new(list.len(), |i: int| stage),
            r.kinds() == old(self).kinds() + Seq::new(
                list.len(),
                |i: int|
                    match state {
                        Some(s) => SystemType::Stateful(s),
                        None => SystemType::Stateless,
                    },
            ),
            *final(self) == *final(r),
    {
        let typ = match state {
            Some(s) => SystemType::Stateful(s),
            None => SystemType::Stateless,
        };
        let ghost stages0 = self.stages();
        let ghost kinds0 = self.kinds();
        let ghost n = list.len();
        let mut systems = list.systems;
        while systems.len() > 0
            invariant
                systems@.len() <= n,
                self.built_world() == old(self).built_world(),
                self.stages() == stages0 + Seq::new((n - systems@.len()) as nat, |i: int| stage),
                self.kinds() == kinds0 + Seq::new((n - systems@.len()) as nat, |i: int| typ),
            decreases systems@.len(),
        {
            let ghost stages1 = self.stages();
            let ghost kinds1 = self.kinds();
            let system = systems.remove(0);
            self.systems.push(AppSystem::new(system, stage, typ));
            proof {
                assert(self.stages() =~= stages1.push(stage));
                assert(self.kinds() =~= kinds1.push(typ));
                assert(self.stages() =~= stages0 + Seq::new((n - systems@.len()) as nat, |i: int| stage));
                assert(self.kinds() =~= kinds0 + Seq::new((n - systems@.len()) as nat, |i: int| typ));
            }
        }
        self
    }

    /// Freezes the registrations into a runnable application: runs every
    /// startup system, each flushed before the next; sets the initial state
    /// with no transition pending; then runs the listeners that enter it.
    /// Systems run by stage, and in registration order within a stage.
    pub fn build(&mut self) -> (app: App<R, S>)
        requires
            old(self).built_world() is Some,
        ensures
            final(self).built_world() is None,
            final(self).stages() == Seq::<CoreStage>::empty(),
            app.wf(),
            app.stages() == old(self).stages(),
            app.kinds() == old(self).kinds(),
            app.generation() == 0,
            app.sweep_generation() == 0,
            app.state().spec_current() == AppState::initial(),
            app.log() == build_steps(old(self).stages(), old(self).kinds()),
            app.told() == old(self).told(),
            app.states().len() == old(self).states().len(),
            forall|i: int|
                0 <= i < old(self).states().len() ==> #[trigger] app.states()[i] == old(self).states()[i]
                    + repeat_state(
                    old(self).built_world()->Some_0.state.spec_current(),
                    count_step(pass_steps(old(self).stages(), old(self).kinds(), Selector::Exactly(SystemType::Startup)), Step::Run(i as nat)),
                ) + repeat_state(
                    AppState::initial(),
                    count_step(pass_steps(old(self).stages(), old(self).kinds(), Selector::Exactly(SystemType::OnEnter(AppState::initial()))), Step::Run(i as nat)),
                ),
            advanced(old(self).runs(), app.runs(), app.log(), false),
            advanced(old(self).flushes(), app.flushes(), app.log(), true),
    {
        let world = self.world.take().unwrap();
        let ghost stages = self.stages();
        let ghost kinds = self.kinds();
        let ghost runs0 = self.runs();
        let ghost flushes0 = self.flushes();
        let ghost states0 = self.states();
        let mut systems: Vec<AppSystem<S>> = Vec::new();
        std::mem::swap(&mut systems, &mut self.systems);
        proof {
            assert(self.stages() =~= Seq::<CoreStage>::empty());
            assert(systems@.map_values(|s: AppSystem<S>| s.stage) == stages);
        }
        let order = execution_order(&systems);
        let mut app = App {
            world,
            systems,
            order,
            archetype_generation: 0,
            log: Ghost(Seq::empty()),
            sweep_generation: Ghost(0),
            sweep_state: Ghost(State { current: AppState::initial(), pending: None }),
            last_transition: Ghost(None),
        };
        assert(app.runs() =~= runs0);
        assert(app.flushes() =~= flushes0);
        assert(app.told() =~= old(self).told());
        assert(app.states() =~= states0);
        app.run_systems(Selector::Exactly(SystemType::Startup));
        let ghost runs1 = app.runs();
        let ghost flushes1 = app.flushes();
        let ghost states1 = app.states();
        app.world.state = State::new();
        app.run_systems(Selector::Exactly(SystemType::OnEnter(AppState::Preload)));
        let ghost x = pass_steps(stages, kinds, Selector::Exactly(SystemType::Startup));
        let ghost y = pass_steps(stages, kinds, Selector::Exactly(SystemType::OnEnter(AppState::initial())));
        assert(app.log@ =~= build_steps(stages, kinds));
        assert(app.log@ =~= x + y);
        assert forall|k: int| 0 <= k < runs0.len() implies #[trigger] app.runs()[k] == runs0[k] + count_step(app.log(), counted_step(false, k as nat)) by {
            lemma_count_step_concat(x, y, counted_step(false, k as nat));
            assert(runs1[k] == runs0[k] + count_step(x, counted_step(false, k as nat)));
        }
        assert forall|k: int| 0 <= k < flushes0.len() implies #[trigger] app.flushes()[k] == flushes0[k] + count_step(app.log(), counted_step(true, k as nat)) by {
            lemma_count_step_concat(x, y, counted_step(true, k as nat));
            assert(flushes1[k] == flushes0[k] + count_step(x, counted_step(true, k as nat)));
        }
        app
    }

    /// Builds the application and hands it to `runner`, the host loop that
    /// ticks it until it decides to stop.
    pub fn run<F: FnOnce(App<R, S>)>(&mut self, runner: F)
        requires
            old(self).built_world() is Some,
            forall|app: App<R, S>| app.wf() ==> #[trigger] runner.requires((app,)),
        ensures
            final(self).built_world() is None,
    {
        let app = self.build();
        runner(app);
    }

    /// The world the application will be built with.
    pub fn world(&mut self) -> (r: &mut World<R>)
        requires
            old(self).built_world() is Some,
        ensures
            Some(*r) == old(self).built_world(),
            final(self).built_world() == Some(*final(r)),
            final(self).stages() == old(self).stages(),
            final(self).kinds() == old(self).kinds(),
    {
        self.world.as_mut().unwrap()
    }

    /// Registers a listener that runs when `state` is entered.
    pub fn on_enter_state(&mut self, state: AppState, system: S) -> (r: &mut Self)
        ensures
            r.built_world() == old(self).built_world(),
            r.stages() == old(self).stages().push(CoreStage::First),
            r.kinds() == old(self).kinds().push(SystemType::OnEnter(state)),
            *final(self) == *final(r),
    {
        self.push_system(system, CoreStage::First, SystemType::OnEnter(state))
    }

    /// Registers a listener that runs when `state` is left.
    pub fn on_exit_state(&mut self, state: AppState, system: S) -> (r: &mut Self)
        ensures
            r.built_world() == old(self).built_world(),
            r.stages() == old(self).stages().push(CoreStage::First),
            r.kinds() == old(self).kinds().push(SystemType::OnExit(state)),
            *final(self) == *final(r),
    {
        self.push_system(system, CoreStage::First, SystemType::OnExit(state))
    }

    /// Registers the system that clears an event channel. It runs once per
    /// tick at the terminal stage, after every other system, so that an event
    /// is visible from its emission to the end of the tick and no longer.
    pub fn add_event(&mut self, clear_system: S) -> (r: &mut Self)
        ensures
            r.built_world() == old(self).built_world(),
            r.stages() == old(self).stages().push(CoreStage::EventReset),
            r.kinds() == old(self).kinds().push(SystemType::Stateless),
            *final(self) == *final(r),
    {
        self.add_system_to_stage(CoreStage::EventReset, clear_system)
    }
}

} // verus!
