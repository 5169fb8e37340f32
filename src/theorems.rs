use vstd::prelude::*;
use crate::schedule::{
    at_stage, build_steps, next_state, notify_one, notify_steps, pass_steps, run_steps, selected,
    stage_order, stage_order_upto, tick_steps, transition_steps, Selector, Step,
};
use crate::stage::{AppState, CoreStage, SystemType, STAGE_COUNT};

verus! {

/// How many times `i` occurs in `s`.
pub open spec fn occurrences(s: Seq<nat>, i: nat) -> nat
    decreases s.len(),
{
    if s.len() == 0 {
        0
    } else {
        occurrences(s.drop_last(), i) + if s.last() == i {
            1nat
        } else {
            0nat
        }
    }
}

/// How many times step `st` occurs in `log`.
pub open spec fn count_step(log: Seq<Step>, st: Step) -> nat
    decreases log.len(),
{
    if log.len() == 0 {
        0
    } else {
        count_step(log.drop_last(), st) + if log.last() == st {
            1nat
        } else {
            0nat
        }
    }
}

/// How many times system `i` was invoked in `log`.
pub open spec fn count_runs(log: Seq<Step>, i: nat) -> nat {
    count_step(log, Step::Run(i))
}

/// How many times system `i`'s deferred mutations were applied in `log`.
pub open spec fn count_flushes(log: Seq<Step>, i: nat) -> nat {
    count_step(log, Step::Flush(i))
}

/// The step that counts for system `i`: its run, or its flush.
pub open spec fn counted_step(flush: bool, i: nat) -> Step {
    if flush {
        Step::Flush(i)
    } else {
        Step::Run(i)
    }
}

/// Each counter of `after` is the one of `before` plus how often `steps` ran
/// (or flushed, with `flush`) the system with that index.
pub open spec fn advanced(before: Seq<nat>, after: Seq<nat>, steps: Seq<Step>, flush: bool) -> bool {
    &&& after.len() == before.len()
    &&& forall|i: int|
        0 <= i < before.len() ==> #[trigger] after[i] == before[i] + count_step(
            steps,
            counted_step(flush, i as nat),
        )
}

/// The archetype indices `from..to`, in order.
pub open spec fn archetype_range(from: nat, to: nat) -> Seq<usize> {
    Seq::new((to - from) as nat, |k: int| (from + k) as usize)
}

/// System `a` runs before system `b` in the stage order: an earlier stage, or
/// the same stage and an earlier registration.
pub open spec fn runs_before(stages: Seq<CoreStage>, a: nat, b: nat) -> bool {
    ||| stages[a as int].rank() < stages[b as int].rank()
    ||| (stages[a as int].rank() == stages[b as int].rank() && a < b)
}

/// Every two entries of `s` are in stage order.
pub open spec fn in_stage_order(stages: Seq<CoreStage>, s: Seq<nat>) -> bool {
    forall|p: int, q: int| 0 <= p < q < s.len() ==> runs_before(stages, s[p], s[q])
}

/// Every invocation in `log` is directly followed by the flush of the same
/// system, before anything else happens.
pub open spec fn flushed_at_once(log: Seq<Step>) -> bool {
    forall|p: int|
        0 <= p < log.len() && (#[trigger] log[p]) is Run ==> p + 1 < log.len() && log[p + 1]
            == Step::Flush(log[p]->Run_0)
}

pub open spec fn no_runs(log: Seq<Step>) -> bool {
    forall|p: int| 0 <= p < log.len() ==> !((#[trigger] log[p]) is Run)
}

/// The steps of `n` consecutive ticks, the `t`-th begun in state `currents[t]`,
/// with archetype generations `gens[t]..mids[t]..gens[t + 1]`, applying
/// `transitions[t]`.
pub open spec fn ticks_steps(
    stages: Seq<CoreStage>,
    kinds: Seq<SystemType>,
    currents: Seq<AppState>,
    gens: Seq<nat>,
    mids: Seq<nat>,
    transitions: Seq<Option<AppState>>,
    n: nat,
) -> Seq<Step>
    decreases n,
{
    if n == 0 {
        seq![]
    } else {
        ticks_steps(stages, kinds, currents, gens, mids, transitions, (n - 1) as nat) + tick_steps(
            stages,
            kinds,
            currents[n - 1],
            gens[n - 1],
            mids[n - 1],
            gens[n as int],
            transitions[n - 1],
        )
    }
}

proof fn lemma_occurrences_concat(a: Seq<nat>, b: Seq<nat>, i: nat)
    ensures
        occurrences(a + b, i) == occurrences(a, i) + occurrences(b, i),
    decreases b.len(),
{
    if b.len() == 0 {
        assert(a + b =~= a);
    } else {
        assert((a + b).drop_last() =~= a + b.drop_last());
        lemma_occurrences_concat(a, b.drop_last(), i);
    }
}

pub proof fn lemma_count_step_concat(a: Seq<Step>, b: Seq<Step>, st: Step)
    ensures
        count_step(a + b, st) == count_step(a, st) + count_step(b, st),
    decreases b.len(),
{
    if b.len() == 0 {
        assert(a + b =~= a);
    } else {
        assert((a + b).drop_last() =~= a + b.drop_last());
        lemma_count_step_concat(a, b.drop_last(), st);
    }
}

proof fn lemma_count_runs_concat(a: Seq<Step>, b: Seq<Step>, i: nat)
    ensures
        count_runs(a + b, i) == count_runs(a, i) + count_runs(b, i),
{
    lemma_count_step_concat(a, b, Step::Run(i));
}

/// Running system `j` and flushing it counts one run and one flush of `j`.
pub proof fn lemma_count_pair(j: nat, st: Step)
    ensures
        count_step(seq![Step::Run(j), Step::Flush(j)], st) == (if st == Step::Run(j) || st
            == Step::Flush(j) {
            1nat
        } else {
            0nat
        }),
{
    let t = seq![Step::Run(j), Step::Flush(j)];
    assert(t.drop_last().drop_last() =~= Seq::<Step>::empty());
    assert(t.drop_last().last() == Step::Run(j));
    assert(t.last() == Step::Flush(j));
    assert(count_step(t.drop_last().drop_last(), st) == 0);
    assert(count_step(t.drop_last(), st) == (if st == Step::Run(j) { 1nat } else { 0nat }));
    assert(count_step(t, st) == count_step(t.drop_last(), st) + (if st == Step::Flush(j) {
        1nat
    } else {
        0nat
    }));
}

/// Notifications count no run and no flush.
pub proof fn lemma_notify_count(n: nat, from: nat, to: nat, st: Step)
    requires
        !(st is Notify),
    ensures
        count_step(notify_steps(n, from, to), st) == 0,
        count_step(seq![Step::EndTick], st) == 0 || st == Step::EndTick,
{
    lemma_notify_no_runs_any(n, from, to, st);
    let e = seq![Step::EndTick];
    assert(e.drop_last() =~= Seq::<Step>::empty());
    assert(count_step(e.drop_last(), st) == 0);
    assert(count_step(e, st) == (if e.last() == st { 1nat } else { 0nat }));
}

proof fn lemma_notify_no_runs_any(n: nat, from: nat, to: nat, st: Step)
    requires
        !(st is Notify),
    ensures
        count_step(notify_steps(n, from, to), st) == 0,
    decreases to,
{
    if to > from {
        lemma_notify_no_runs_any(n, from, (to - 1) as nat, st);
        lemma_notify_one_count((to - 1) as nat, n, st);
        lemma_count_step_concat(notify_steps(n, from, (to - 1) as nat), notify_one((to - 1) as nat, n), st);
    }
}

proof fn lemma_notify_one_count(a: nat, n: nat, st: Step)
    requires
        !(st is Notify),
    ensures
        count_step(notify_one(a, n), st) == 0,
    decreases n,
{
    if n > 0 {
        lemma_notify_one_count(a, (n - 1) as nat, st);
        let s = notify_one(a, n);
        assert(s.drop_last() =~= notify_one(a, (n - 1) as nat));
    }
}

proof fn lemma_no_runs_count(log: Seq<Step>, i: nat)
    requires
        no_runs(log),
    ensures
        count_runs(log, i) == 0,
    decreases log.len(),
{
    if log.len() > 0 {
        assert(no_runs(log.drop_last()));
        assert(!(log[log.len() - 1] is Run));
        lemma_no_runs_count(log.drop_last(), i);
    }
}

proof fn lemma_notify_no_runs(n: nat, from: nat, to: nat)
    ensures
        no_runs(notify_steps(n, from, to)),
    decreases to,
{
    if to > from {
        lemma_notify_no_runs(n, from, (to - 1) as nat);
        lemma_notify_one_no_runs((to - 1) as nat, n);
        let a = notify_steps(n, from, (to - 1) as nat);
        let b = notify_one((to - 1) as nat, n);
        assert forall|p: int| 0 <= p < (a + b).len() implies !((#[trigger] (a + b)[p]) is Run) by {
            if p < a.len() {
                assert((a + b)[p] == a[p]);
            } else {
                assert((a + b)[p] == b[p - a.len()]);
            }
        }
    }
}

proof fn lemma_notify_one_no_runs(a: nat, n: nat)
    ensures
        no_runs(notify_one(a, n)),
    decreases n,
{
    if n > 0 {
        lemma_notify_one_no_runs(a, (n - 1) as nat);
    }
}

proof fn lemma_run_steps_shape(idx: Seq<nat>)
    ensures
        run_steps(idx).len() == 2 * idx.len(),
        forall|p: int|
            0 <= p < idx.len() ==> run_steps(idx)[2 * p] == Step::Run(idx[p]) && run_steps(idx)[2 * p
                + 1] == Step::Flush(idx[p]),
    decreases idx.len(),
{
    if idx.len() > 0 {
        let d = idx.drop_last();
        lemma_run_steps_shape(d);
        assert forall|p: int| 0 <= p < idx.len() implies run_steps(idx)[2 * p] == Step::Run(idx[p])
            && run_steps(idx)[2 * p + 1] == Step::Flush(idx[p]) by {
            if p < d.len() {
                assert(idx[p] == d[p]);
            }
        }
    }
}

proof fn lemma_run_steps_count(idx: Seq<nat>, i: nat)
    ensures
        count_runs(run_steps(idx), i) == occurrences(idx, i),
    decreases idx.len(),
{
    if idx.len() > 0 {
        let d = idx.drop_last();
        let tail = seq![Step::Run(idx.last()), Step::Flush(idx.last())];
        lemma_run_steps_count(d, i);
        lemma_count_runs_concat(run_steps(d), tail, i);
        let t1 = tail.drop_last();
        assert(t1.drop_last() =~= Seq::<Step>::empty());
        assert(t1.last() == Step::Run(idx.last()));
        assert(count_runs(t1.drop_last(), i) == 0);
        assert(count_runs(t1, i) == if idx.last() == i {
            1nat
        } else {
            0nat
        });
        assert(tail.last() == Step::Flush(idx.last()));
        assert(count_runs(tail, i) == count_runs(t1, i));
    }
}

proof fn lemma_run_steps_flushed(idx: Seq<nat>)
    ensures
        flushed_at_once(run_steps(idx)),
{
    lemma_run_steps_shape(idx);
    let log = run_steps(idx);
    assert forall|p: int| 0 <= p < log.len() && (#[trigger] log[p]) is Run implies p + 1 < log.len()
        && log[p + 1] == Step::Flush(log[p]->Run_0) by {
        let h = p / 2;
        assert(p == 2 * h || p == 2 * h + 1);
        assert(0 <= h < idx.len());
        if p == 2 * h + 1 {
            assert(log[2 * h + 1] == Step::Flush(idx[h]));
        } else {
            assert(log[2 * h] == Step::Run(idx[h]));
            assert(log[2 * h + 1] == Step::Flush(idx[h]));
        }
    }
}

proof fn lemma_flushed_concat(a: Seq<Step>, b: Seq<Step>)
    requires
        flushed_at_once(a),
        flushed_at_once(b),
    ensures
        flushed_at_once(a + b),
{
    let s = a + b;
    assert forall|p: int| 0 <= p < s.len() && (#[trigger] s[p]) is Run implies p + 1 < s.len() && s[p
        + 1] == Step::Flush(s[p]->Run_0) by {
        if p < a.len() {
            assert(s[p] == a[p]);
            assert(s[p + 1] == a[p + 1]);
        } else {
            assert(s[p] == b[p - a.len()]);
            assert(s[p + 1] == b[p + 1 - a.len()]);
        }
    }
}

proof fn lemma_selected_occurrences(order: Seq<nat>, kinds: Seq<SystemType>, sel: Selector, i: nat)
    ensures
        occurrences(selected(order, kinds, sel), i) == if sel.spec_selects(kinds[i as int]) {
            occurrences(order, i)
        } else {
            0
        },
    decreases order.len(),
{
    if order.len() > 0 {
        lemma_selected_occurrences(order.drop_last(), kinds, sel, i);
        let d = selected(order.drop_last(), kinds, sel);
        assert(d.push(order.last()).drop_last() =~= d);
    }
}

proof fn lemma_selected_subsequence(stages: Seq<CoreStage>, order: Seq<nat>, kinds: Seq<SystemType>, sel: Selector)
    requires
        in_stage_order(stages, order),
    ensures
        in_stage_order(stages, selected(order, kinds, sel)),
        forall|p: int|
            0 <= p < selected(order, kinds, sel).len() ==> order.contains(
                #[trigger] selected(order, kinds, sel)[p],
            ),
    decreases order.len(),
{
    if order.len() > 0 {
        let d = order.drop_last();
        assert(in_stage_order(stages, d));
        lemma_selected_subsequence(stages, d, kinds, sel);
        let sd = selected(d, kinds, sel);
        assert forall|p: int| 0 <= p < sd.len() implies runs_before(stages, sd[p], order.last()) && order.contains(sd[p]) by {
            assert(d.contains(sd[p]));
            let j = choose|j: int| 0 <= j < d.len() && d[j] == sd[p];
            assert(order[j] == sd[p]);
            assert(order[order.len() - 1] == order.last());
        }
    }
}

proof fn lemma_at_stage(stages: Seq<CoreStage>, k: nat, n: nat, i: nat)
    ensures
        occurrences(at_stage(stages, k, n), i) == if i < n && stages[i as int].rank() == k {
            1nat
        } else {
            0nat
        },
        in_stage_order(stages, at_stage(stages, k, n)),
        forall|p: int|
            0 <= p < at_stage(stages, k, n).len() ==> #[trigger] at_stage(stages, k, n)[p] < n
                && stages[at_stage(stages, k, n)[p] as int].rank() == k,
    decreases n,
{
    if n > 0 {
        lemma_at_stage(stages, k, (n - 1) as nat, i);
        let d = at_stage(stages, k, (n - 1) as nat);
        assert(d.push((n - 1) as nat).drop_last() =~= d);
    }
}

proof fn lemma_stage_order_upto(stages: Seq<CoreStage>, k: nat, i: nat)
    ensures
        occurrences(stage_order_upto(stages, k), i) == if i < stages.len() && stages[i as int].rank()
            < k {
            1nat
        } else {
            0nat
        },
        in_stage_order(stages, stage_order_upto(stages, k)),
        forall|p: int|
            0 <= p < stage_order_upto(stages, k).len() ==> stages[#[trigger] stage_order_upto(
                stages,
                k,
            )[p] as int].rank() < k,
    decreases k,
{
    if k > 0 {
        let kk = (k - 1) as nat;
        lemma_stage_order_upto(stages, kk, i);
        lemma_at_stage(stages, kk, stages.len(), i);
        let a = stage_order_upto(stages, kk);
        let b = at_stage(stages, kk, stages.len());
        lemma_occurrences_concat(a, b, i);
        let s = a + b;
        assert forall|p: int, q: int| 0 <= p < q < s.len() implies runs_before(stages, s[p], s[q]) by {
            if q < a.len() {
                assert(s[p] == a[p] && s[q] == a[q]);
            } else if p < a.len() {
                assert(s[p] == a[p] && s[q] == b[q - a.len()]);
            } else {
                assert(s[p] == b[p - a.len()] && s[q] == b[q - a.len()]);
            }
        }
        assert forall|p: int| 0 <= p < s.len() implies stages[#[trigger] s[p] as int].rank() < k by {
            if p < a.len() {
                assert(s[p] == a[p]);
            } else {
                assert(s[p] == b[p - a.len()]);
            }
        }
    }
}

/// The execution order holds every registered system exactly once, and
/// orders them by stage, then by registration.
pub proof fn lemma_stage_order(stages: Seq<CoreStage>, i: nat)
    ensures
        occurrences(stage_order(stages), i) == if i < stages.len() {
            1nat
        } else {
            0nat
        },
        in_stage_order(stages, stage_order(stages)),
{
    lemma_stage_order_upto(stages, STAGE_COUNT as nat, i);
    if i < stages.len() {
        assert(stages[i as int].rank() < STAGE_COUNT);
    }
}

/// A pass invokes each system it selects exactly once and no other.
pub proof fn lemma_pass_count(stages: Seq<CoreStage>, kinds: Seq<SystemType>, sel: Selector, i: nat)
    ensures
        count_runs(pass_steps(stages, kinds, sel), i) == if i < stages.len() && sel.spec_selects(
            kinds[i as int],
        ) {
            1nat
        } else {
            0nat
        },
{
    lemma_stage_order(stages, i);
    lemma_selected_occurrences(stage_order(stages), kinds, sel, i);
    lemma_run_steps_count(selected(stage_order(stages), kinds, sel), i);
}

/// Within a tick, the sweep runs systems in ascending stage order, and in
/// registration order within a stage, whatever order the stages were
/// registered in: the `k`-th invocation of the sweep is of its `k`-th
/// selected system, and selected systems stand in stage order.
pub proof fn lemma_sweep_follows_stage_order(stages: Seq<CoreStage>, kinds: Seq<SystemType>, current: AppState)
    ensures
        ({
            let picked = selected(stage_order(stages), kinds, Selector::Sweep(current));
            &&& in_stage_order(stages, picked)
            &&& pass_steps(stages, kinds, Selector::Sweep(current)).len() == 2 * picked.len()
            &&& forall|p: int|
                0 <= p < picked.len() ==> pass_steps(stages, kinds, Selector::Sweep(current))[2 * p]
                    == Step::Run(picked[p])
        }),
{
    lemma_stage_order(stages, 0);
    lemma_selected_subsequence(stages, stage_order(stages), kinds, Selector::Sweep(current));
    lemma_run_steps_shape(selected(stage_order(stages), kinds, Selector::Sweep(current)));
}

/// The clearing systems of event channels, registered at the terminal stage,
/// run after every other system of the sweep: an event emitted in a tick stays
/// readable by every system that runs after its emission in that tick.
pub proof fn lemma_event_reset_runs_last(stages: Seq<CoreStage>, kinds: Seq<SystemType>, current: AppState)
    ensures
        ({
            let picked = selected(stage_order(stages), kinds, Selector::Sweep(current));
            forall|p: int, q: int|
                0 <= p < q < picked.len() && stages[picked[p] as int] == CoreStage::EventReset
                    ==> stages[picked[q] as int] == CoreStage::EventReset
        }),
{
    lemma_sweep_follows_stage_order(stages, kinds, current);
    let picked = selected(stage_order(stages), kinds, Selector::Sweep(current));
    assert forall|p: int, q: int|
        0 <= p < q < picked.len() && stages[picked[p] as int] == CoreStage::EventReset implies stages[picked[q] as int]
            == CoreStage::EventReset by {
        assert(runs_before(stages, picked[p], picked[q]));
    }
}

proof fn lemma_tick_count(
    stages: Seq<CoreStage>,
    kinds: Seq<SystemType>,
    current: AppState,
    from: nat,
    mid: nat,
    to: nat,
    transition: Option<AppState>,
    i: nat,
)
    ensures
        count_runs(tick_steps(stages, kinds, current, from, mid, to, transition), i) == count_runs(
            pass_steps(stages, kinds, Selector::Sweep(current)),
            i,
        ) + count_runs(transition_steps(stages, kinds, current, transition), i),
{
    let a = pass_steps(stages, kinds, Selector::Sweep(current));
    let b = notify_steps(kinds.len(), from, mid);
    let c = seq![Step::EndTick];
    let d = transition_steps(stages, kinds, current, transition);
    let e = notify_steps(kinds.len(), mid, to);
    lemma_notify_no_runs(kinds.len(), from, mid);
    lemma_notify_no_runs(kinds.len(), mid, to);
    lemma_no_runs_count(b, i);
    lemma_no_runs_count(e, i);
    assert(no_runs(c));
    lemma_no_runs_count(c, i);
    lemma_count_runs_concat(a, b, i);
    lemma_count_runs_concat(a + b, c, i);
    lemma_count_runs_concat(a + b + c, d, i);
    lemma_count_runs_concat(a + b + c + d, e, i);
}

/// A system registered to run in every tick is invoked exactly once per tick,
/// whatever the state and whether or not a transition happens.
pub proof fn lemma_stateless_runs_once_per_tick(
    stages: Seq<CoreStage>,
    kinds: Seq<SystemType>,
    current: AppState,
    from: nat,
    mid: nat,
    to: nat,
    transition: Option<AppState>,
    i: nat,
)
    requires
        stages.len() == kinds.len(),
        i < kinds.len(),
        kinds[i as int] == SystemType::Stateless,
    ensures
        count_runs(tick_steps(stages, kinds, current, from, mid, to, transition), i) == 1,
{
    lemma_tick_count(stages, kinds, current, from, mid, to, transition, i);
    lemma_pass_count(stages, kinds, Selector::Sweep(current), i);
    if let Some(next) = transition {
        lemma_pass_count(stages, kinds, Selector::Exactly(SystemType::OnExit(current)), i);
        lemma_pass_count(stages, kinds, Selector::Exactly(SystemType::OnEnter(next)), i);
        lemma_count_runs_concat(
            pass_steps(stages, kinds, Selector::Exactly(SystemType::OnExit(current))),
            pass_steps(stages, kinds, Selector::Exactly(SystemType::OnEnter(next))),
            i,
        );
    }
}

/// After `n` ticks, a system registered to run in every tick has been
/// invoked exactly `n` times.
pub proof fn lemma_stateless_runs_n_times(
    stages: Seq<CoreStage>,
    kinds: Seq<SystemType>,
    currents: Seq<AppState>,
    gens: Seq<nat>,
    mids: Seq<nat>,
    transitions: Seq<Option<AppState>>,
    n: nat,
    i: nat,
)
    requires
        stages.len() == kinds.len(),
        i < kinds.len(),
        kinds[i as int] == SystemType::Stateless,
    ensures
        count_runs(ticks_steps(stages, kinds, currents, gens, mids, transitions, n), i) == n,
    decreases n,
{
    if n > 0 {
        let m = (n - 1) as nat;
        lemma_stateless_runs_n_times(stages, kinds, currents, gens, mids, transitions, m, i);
        lemma_stateless_runs_once_per_tick(
            stages,
            kinds,
            currents[m as int],
            gens[m as int],
            mids[m as int],
            gens[n as int],
            transitions[m as int],
            i,
        );
        lemma_count_runs_concat(
            ticks_steps(stages, kinds, currents, gens, mids, transitions, m),
            tick_steps(stages, kinds, currents[m as int], gens[m as int], mids[m as int], gens[n as int], transitions[m as int]),
            i,
        );
    }
}

/// Building runs each listener of the initial state's entry exactly once,
/// and each startup system exactly once.
pub proof fn lemma_build_enters_initial_state_once(stages: Seq<CoreStage>, kinds: Seq<SystemType>, i: nat)
    requires
        stages.len() == kinds.len(),
        i < kinds.len(),
        kinds[i as int] == SystemType::OnEnter(AppState::initial()) || kinds[i as int]
            == SystemType::Startup,
    ensures
        count_runs(build_steps(stages, kinds), i) == 1,
{
    let a = pass_steps(stages, kinds, Selector::Exactly(SystemType::Startup));
    let b = pass_steps(stages, kinds, Selector::Exactly(SystemType::OnEnter(AppState::initial())));
    lemma_pass_count(stages, kinds, Selector::Exactly(SystemType::Startup), i);
    lemma_pass_count(stages, kinds, Selector::Exactly(SystemType::OnEnter(AppState::initial())), i);
    lemma_count_runs_concat(a, b, i);
}

/// A listener runs in a tick only when that tick crosses its edge: an enter
/// listener of `s` once if the tick enters `s`, an exit listener of `s` once
/// if the tick leaves `s`, and otherwise not at all.
pub proof fn lemma_listeners_run_only_on_their_edge(
    stages: Seq<CoreStage>,
    kinds: Seq<SystemType>,
    current: AppState,
    from: nat,
    mid: nat,
    to: nat,
    transition: Option<AppState>,
    i: nat,
)
    requires
        stages.len() == kinds.len(),
        i < kinds.len(),
    ensures
        kinds[i as int] matches SystemType::OnEnter(s) ==> count_runs(
            tick_steps(stages, kinds, current, from, mid, to, transition),
            i,
        ) == (if transition == Some(s) {
            1nat
        } else {
            0nat
        }),
        kinds[i as int] matches SystemType::OnExit(s) ==> count_runs(
            tick_steps(stages, kinds, current, from, mid, to, transition),
            i,
        ) == (if transition is Some && current == s {
            1nat
        } else {
            0nat
        }),
{
    lemma_tick_count(stages, kinds, current, from, mid, to, transition, i);
    lemma_pass_count(stages, kinds, Selector::Sweep(current), i);
    if let Some(next) = transition {
        lemma_pass_count(stages, kinds, Selector::Exactly(SystemType::OnExit(current)), i);
        lemma_pass_count(stages, kinds, Selector::Exactly(SystemType::OnEnter(next)), i);
        lemma_count_runs_concat(
            pass_steps(stages, kinds, Selector::Exactly(SystemType::OnExit(current))),
            pass_steps(stages, kinds, Selector::Exactly(SystemType::OnEnter(next))),
            i,
        );
    }
}

/// A transition requested during a tick is applied at the end of that same
/// tick as a full edge: the exit listeners of the state left run once each,
/// then the enter listeners of the state entered run once each. This holds
/// also when the state entered is the state left.
pub proof fn lemma_transition_within_tick(
    stages: Seq<CoreStage>,
    kinds: Seq<SystemType>,
    current: AppState,
    next: AppState,
    from: nat,
    mid: nat,
    to: nat,
    i: nat,
)
    requires
        stages.len() == kinds.len(),
        i < kinds.len(),
    ensures
        tick_steps(stages, kinds, current, from, mid, to, Some(next)) == pass_steps(
            stages,
            kinds,
            Selector::Sweep(current),
        ) + notify_steps(kinds.len(), from, mid) + seq![Step::EndTick] + pass_steps(
            stages,
            kinds,
            Selector::Exactly(SystemType::OnExit(current)),
        ) + pass_steps(stages, kinds, Selector::Exactly(SystemType::OnEnter(next))) + notify_steps(
            kinds.len(),
            mid,
            to,
        ),
        next_state(current, Some(next)) == next,
        kinds[i as int] == SystemType::OnExit(current) ==> count_runs(
            pass_steps(stages, kinds, Selector::Exactly(SystemType::OnExit(current))),
            i,
        ) == 1 && count_runs(tick_steps(stages, kinds, current, from, mid, to, Some(next)), i) >= 1,
        kinds[i as int] == SystemType::OnEnter(next) ==> count_runs(
            pass_steps(stages, kinds, Selector::Exactly(SystemType::OnEnter(next))),
            i,
        ) == 1 && count_runs(tick_steps(stages, kinds, current, from, mid, to, Some(next)), i) >= 1,
{
    let x = pass_steps(stages, kinds, Selector::Exactly(SystemType::OnExit(current)));
    let y = pass_steps(stages, kinds, Selector::Exactly(SystemType::OnEnter(next)));
    lemma_pass_count(stages, kinds, Selector::Exactly(SystemType::OnExit(current)), i);
    lemma_pass_count(stages, kinds, Selector::Exactly(SystemType::OnEnter(next)), i);
    lemma_count_runs_concat(x, y, i);
    lemma_tick_count(stages, kinds, current, from, mid, to, Some(next), i);
    let p = pass_steps(stages, kinds, Selector::Sweep(current)) + notify_steps(kinds.len(), from, mid)
        + seq![Step::EndTick];
    assert(tick_steps(stages, kinds, current, from, mid, to, Some(next)) =~= p + x + y + notify_steps(kinds.len(), mid, to));
}

/// The systems of a state do not run in the tick that enters it, and run in
/// the next tick, which begins in that state.
pub proof fn lemma_state_systems_start_next_tick(
    stages: Seq<CoreStage>,
    kinds: Seq<SystemType>,
    current: AppState,
    next: AppState,
    from: nat,
    m1: nat,
    mid: nat,
    m2: nat,
    to: nat,
    later: Option<AppState>,
    i: nat,
)
    requires
        stages.len() == kinds.len(),
        i < kinds.len(),
        current != next,
        kinds[i as int] == SystemType::Stateful(next),
    ensures
        count_runs(tick_steps(stages, kinds, current, from, m1, mid, Some(next)), i) == 0,
        count_runs(tick_steps(stages, kinds, next_state(current, Some(next)), mid, m2, to, later), i)
            == 1,
{
    lemma_tick_count(stages, kinds, current, from, m1, mid, Some(next), i);
    lemma_pass_count(stages, kinds, Selector::Sweep(current), i);
    lemma_pass_count(stages, kinds, Selector::Exactly(SystemType::OnExit(current)), i);
    lemma_pass_count(stages, kinds, Selector::Exactly(SystemType::OnEnter(next)), i);
    lemma_count_runs_concat(
        pass_steps(stages, kinds, Selector::Exactly(SystemType::OnExit(current))),
        pass_steps(stages, kinds, Selector::Exactly(SystemType::OnEnter(next))),
        i,
    );
    lemma_tick_count(stages, kinds, next, mid, m2, to, later, i);
    lemma_pass_count(stages, kinds, Selector::Sweep(next), i);
    if let Some(n2) = later {
        lemma_pass_count(stages, kinds, Selector::Exactly(SystemType::OnExit(next)), i);
        lemma_pass_count(stages, kinds, Selector::Exactly(SystemType::OnEnter(n2)), i);
        lemma_count_runs_concat(
            pass_steps(stages, kinds, Selector::Exactly(SystemType::OnExit(next))),
            pass_steps(stages, kinds, Selector::Exactly(SystemType::OnEnter(n2))),
            i,
        );
    }
}

/// Every invocation, during a build or a tick, is directly followed by the
/// flush of that system's deferred mutations, so a system sees the
/// structural effects of every system that ran before it, even the one just
/// before.
pub proof fn lemma_flush_follows_every_run(
    stages: Seq<CoreStage>,
    kinds: Seq<SystemType>,
    current: AppState,
    from: nat,
    mid: nat,
    to: nat,
    transition: Option<AppState>,
)
    ensures
        flushed_at_once(tick_steps(stages, kinds, current, from, mid, to, transition)),
        flushed_at_once(build_steps(stages, kinds)),
{
    let sweep = pass_steps(stages, kinds, Selector::Sweep(current));
    let b = notify_steps(kinds.len(), from, mid);
    let c = seq![Step::EndTick];
    let d = transition_steps(stages, kinds, current, transition);
    let f = notify_steps(kinds.len(), mid, to);
    lemma_run_steps_flushed(selected(stage_order(stages), kinds, Selector::Sweep(current)));
    lemma_notify_no_runs(kinds.len(), from, mid);
    lemma_notify_no_runs(kinds.len(), mid, to);
    assert(no_runs(c));
    lemma_flushed_concat(sweep, b);
    lemma_flushed_concat(sweep + b, c);
    match transition {
        Some(next) => {
            let x = Selector::Exactly(SystemType::OnExit(current));
            let y = Selector::Exactly(SystemType::OnEnter(next));
            lemma_run_steps_flushed(selected(stage_order(stages), kinds, x));
            lemma_run_steps_flushed(selected(stage_order(stages), kinds, y));
            lemma_flushed_concat(pass_steps(stages, kinds, x), pass_steps(stages, kinds, y));
        },
        None => {
            assert(flushed_at_once(d));
        },
    }
    lemma_flushed_concat(sweep + b + c, d);
    lemma_flushed_concat(sweep + b + c + d, f);
    let s = Selector::Exactly(SystemType::Startup);
    let e = Selector::Exactly(SystemType::OnEnter(AppState::initial()));
    lemma_run_steps_flushed(selected(stage_order(stages), kinds, s));
    lemma_run_steps_flushed(selected(stage_order(stages), kinds, e));
    lemma_flushed_concat(pass_steps(stages, kinds, s), pass_steps(stages, kinds, e));
}

} // verus!
