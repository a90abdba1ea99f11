use vstd::prelude::*;
use vstd::multiset::Multiset;
use crate::operating_system::accounts::{
    count_of_kind, gone_in_visit, held_by, in_system, in_visit, lemma_count_of_kind_adds,
    lemma_count_of_kind_grows, lemma_held_by_concat, lemma_held_by_insert,
    lemma_held_by_same_holdings, lemma_held_by_split, lemma_held_by_update, lemma_visit_accounts,
};
use crate::operating_system::order::{
    in_priority_order, lemma_insert_at_rank, lemma_sort_by_priority_keeps, lemma_sort_is_stable,
    lemma_sort_orders, lemma_sort_permutes, of_priority, rank, sort_by_priority,
};
use crate::operating_system::process::{OutcomeModel, Process, ProcessModel};
use crate::operating_system::resource::Resource;
use crate::operating_system::resource_list::{first_of_kind, holds_kind, lemma_first_of_kind};
use crate::operating_system::schedule::{
    advance, all_wf, clear_desk, conclude, deliver_all, first_with_id, grant, has_id,
    lemma_sweep_len, lemma_sweep_stops, run_blocked, run_model, run_ready, stays, survivors,
    sweep, tick_model, visit, DeskModel, KernelModel, SweepModel, TickModel, VisitModel,
};
use crate::operating_system::search::lemma_first_where;
use crate::operating_system::trace::TraceEvent;
use crate::real_machine::processor::MachineOpView;

verus! {

/// The instances within reach of a sweep: those of the listed processes, the
/// free ones and those of the processes waiting to be scheduled.
pub open spec fn in_sweep<L>(s: SweepModel<L>) -> Multiset<Resource> {
    held_by(s.processes).add(s.desk.pool.to_multiset()).add(held_by(s.desk.spawned))
}

/// The sweep that a tick of `k` starts from.
pub open spec fn tick_start<P: Process>(k: KernelModel<P::Local>, machine: Seq<MachineOpView>)
    -> SweepModel<P::Local> {
    SweepModel { processes: sort_by_priority(k.processes), desk: clear_desk(k.pool, machine) }
}

/// The whole sweep of a tick of `k`.
pub open spec fn tick_sweep<P: Process>(k: KernelModel<P::Local>, machine: Seq<MachineOpView>)
    -> SweepModel<P::Local> {
    sweep::<P>(tick_start::<P>(k, machine), k.processes.len())
}

/// Whether two processes differ in nothing but their state.
pub open spec fn same_but_state<L>(a: ProcessModel<L>, b: ProcessModel<L>) -> bool {
    a == (ProcessModel { state: a.state, ..b })
}

/// The instances that leave the system in the first `n` visits of a sweep.
pub open spec fn gone_in_sweep<P: Process>(start: SweepModel<P::Local>, n: nat) -> Multiset<
    Resource,
>
    decreases n,
{
    if n == 0 {
        Multiset::empty()
    } else {
        let before = sweep::<P>(start, (n - 1) as nat);
        let earlier = gone_in_sweep::<P>(start, (n - 1) as nat);
        if before.desk.fault is Some || n > before.processes.len() {
            earlier
        } else {
            earlier.add(gone_in_visit::<P>(before.processes[n - 1], before.desk))
        }
    }
}

/// Whether a process leaves when the ids in `doomed` are removed.
pub open spec fn leaves<L>(doomed: Seq<usize>) -> spec_fn(ProcessModel<L>) -> bool {
    |p: ProcessModel<L>| doomed.contains(p.id)
}

/// The instances that leave the system in a tick: those that steps use up,
/// those that go with a report on which the kernel does not act (the report
/// of the step that follows a release, and the report that is a violation),
/// those that the removed processes hold, and, where a violation abandons
/// the tick, those of the processes that were waiting to be scheduled.
pub open spec fn gone_in_tick<P: Process>(k: KernelModel<P::Local>, machine: Seq<MachineOpView>)
    -> Multiset<Resource> {
    let swept = tick_sweep::<P>(k, machine);
    gone_in_sweep::<P>(tick_start::<P>(k, machine), k.processes.len()).add(
        if swept.desk.fault is Some {
            held_by(swept.desk.spawned)
        } else {
            held_by((swept.processes + swept.desk.spawned).filter(leaves(swept.desk.doomed)))
        },
    )
}

/// What holds all along a sweep: the list keeps its length, every process
/// keeps its place and its id and can still be stepped, the processes not
/// yet visited are as they were, marks and waiting processes are only added
/// to, and every instance is accounted for.
pub proof fn lemma_sweep_orderly<P: Process>(start: SweepModel<P::Local>, n: nat)
    requires
        all_wf::<P>(start.processes),
        all_wf::<P>(start.desk.spawned),
    ensures
        sweep::<P>(start, n).processes.len() == start.processes.len(),
        all_wf::<P>(sweep::<P>(start, n).processes),
        all_wf::<P>(sweep::<P>(start, n).desk.spawned),
        forall|j: int|
            0 <= j < start.processes.len() ==> (#[trigger] sweep::<P>(start, n).processes[j]).id
                == start.processes[j].id,
        forall|j: int|
            n <= j < start.processes.len() ==> #[trigger] sweep::<P>(start, n).processes[j]
                == start.processes[j],
        start.desk.doomed.is_prefix_of(sweep::<P>(start, n).desk.doomed),
        start.desk.spawned.is_prefix_of(sweep::<P>(start, n).desk.spawned),
        in_sweep(sweep::<P>(start, n)).add(gone_in_sweep::<P>(start, n)) == in_sweep(start),
    decreases n,
{
    broadcast use vstd::multiset::group_multiset_axioms;

    if n > 0 {
        let before = sweep::<P>(start, (n - 1) as nat);
        let after = sweep::<P>(start, n);
        lemma_sweep_orderly::<P>(start, (n - 1) as nat);
        if !(before.desk.fault is Some || n > before.processes.len()) {
            let at = n - 1;
            let p = before.processes[at];
            let v = visit::<P>(p, before.desk);
            lemma_visit_accounts::<P>(p, before.desk);
            lemma_held_by_update(before.processes, at, v.process);
            assert(after.processes == before.processes.update(at, v.process));
            assert forall|r: Resource|
                in_sweep(after).add(gone_in_sweep::<P>(start, n)).count(r) == in_sweep(
                    start,
                ).count(r) by {
                let rest = held_by(after.processes);
                assert(rest.add(p.held.to_multiset()).count(r) == held_by(before.processes).add(
                    v.process.held.to_multiset(),
                ).count(r));
                assert(in_visit(v).add(gone_in_visit::<P>(p, before.desk)).count(r) == in_visit(
                    VisitModel { process: p, desk: before.desk },
                ).count(r));
                assert(in_sweep(before).add(gone_in_sweep::<P>(start, (n - 1) as nat)).count(r)
                    == in_sweep(start).count(r));
            }
        }
        assert(in_sweep(after).add(gone_in_sweep::<P>(start, n)) =~= in_sweep(start));
    } else {
        assert(in_sweep(start).add(gone_in_sweep::<P>(start, 0)) =~= in_sweep(start));
    }
}

/// The sort leaves the holdings of the list as they are.
proof fn lemma_sort_keeps_holdings<L>(processes: Seq<ProcessModel<L>>)
    ensures
        held_by(sort_by_priority(processes)) == held_by(processes),
        sort_by_priority(processes).len() == processes.len(),
    decreases processes.len(),
{
    if processes.len() > 0 {
        let front = processes.drop_last();
        lemma_sort_keeps_holdings(front);
        lemma_insert_at_rank(sort_by_priority(front), processes.last());
        lemma_held_by_insert(
            sort_by_priority(front),
            rank(sort_by_priority(front), processes.last()),
            processes.last(),
        );
    }
}

/// Signals change states and nothing else.
pub proof fn lemma_deliver_all_changes_states<L>(
    processes: Seq<ProcessModel<L>>,
    signals: Seq<(usize, usize)>,
    n: nat,
)
    ensures
        deliver_all(processes, signals, n).0.len() == processes.len(),
        forall|q: int|
            0 <= q < processes.len() ==> same_but_state(
                #[trigger] deliver_all(processes, signals, n).0[q],
                processes[q],
            ),
    decreases n,
{
    if n > 0 {
        lemma_deliver_all_changes_states(processes, signals, (n - 1) as nat);
        let before = deliver_all(processes, signals, (n - 1) as nat);
        lemma_first_where(before.0, has_id(signals[n - 1].0));
    }
}

/// Signals leave every process fit to be stepped.
proof fn lemma_deliver_all_keeps_wf<P: Process>(
    processes: Seq<ProcessModel<P::Local>>,
    signals: Seq<(usize, usize)>,
    n: nat,
)
    requires
        all_wf::<P>(processes),
    ensures
        all_wf::<P>(deliver_all(processes, signals, n).0),
    decreases n,
{
    if n > 0 {
        lemma_deliver_all_keeps_wf::<P>(processes, signals, (n - 1) as nat);
        let before = deliver_all(processes, signals, (n - 1) as nat);
        if !(before.1 is Some || n > signals.len()) {
            let at = first_with_id(before.0, signals[n - 1].0);
            lemma_first_where(before.0, has_id(signals[n - 1].0));
            if at < before.0.len() {
                P::lemma_kernel_keeps_wf(before.0[at], signals[n - 1].1, arbitrary());
            }
        }
    }
}

/// What a tick starts its sweep from: the processes, all fit to be stepped,
/// in priority order, with the instances of the system within reach.
proof fn lemma_tick_start<P: Process>(k: KernelModel<P::Local>, machine: Seq<MachineOpView>)
    requires
        all_wf::<P>(k.processes),
    ensures
        sort_by_priority(k.processes).len() == k.processes.len(),
        all_wf::<P>(tick_start::<P>(k, machine).processes),
        all_wf::<P>(tick_start::<P>(k, machine).desk.spawned),
        in_sweep(tick_start::<P>(k, machine)) == in_system(k),
        tick_model::<P>(k, machine) == if tick_sweep::<P>(k, machine).desk.fault is Some {
            TickModel {
                kernel: KernelModel {
                    processes: tick_sweep::<P>(k, machine).processes,
                    pool: tick_sweep::<P>(k, machine).desk.pool,
                },
                machine: tick_sweep::<P>(k, machine).desk.machine,
                trace: tick_sweep::<P>(k, machine).desk.trace,
                fault: tick_sweep::<P>(k, machine).desk.fault,
            }
        } else {
            conclude(tick_sweep::<P>(k, machine))
        },
{
    broadcast use vstd::multiset::group_multiset_axioms;

    lemma_sort_keeps_holdings(k.processes);
    lemma_sort_by_priority_keeps(k.processes, |p: ProcessModel<P::Local>| P::wf(p));
    assert(in_sweep(tick_start::<P>(k, machine)) =~= in_system(k));
}

/// A tick leaves every process fit to be stepped.
pub proof fn lemma_tick_keeps_wf<P: Process>(k: KernelModel<P::Local>, machine: Seq<MachineOpView>)
    requires
        all_wf::<P>(k.processes),
    ensures
        all_wf::<P>(tick_model::<P>(k, machine).kernel.processes),
{
    let start = tick_start::<P>(k, machine);
    let swept = tick_sweep::<P>(k, machine);
    lemma_tick_start::<P>(k, machine);
    lemma_sweep_orderly::<P>(start, k.processes.len());
    if swept.desk.fault is None {
        let all = swept.processes + swept.desk.spawned;
        let stay = survivors(all, swept.desk.doomed);
        assert forall|q: int| 0 <= q < stay.len() implies P::wf(#[trigger] stay[q]) by {
            all.lemma_filter_contains_rev(stays(swept.desk.doomed), stay[q]);
            let at = choose|at: int| 0 <= at < all.len() && all[at] == stay[q];
            if at < swept.processes.len() {
                assert(all[at] == swept.processes[at]);
            } else {
                assert(all[at] == swept.desk.spawned[at - swept.processes.len()]);
            }
        }
        lemma_deliver_all_keeps_wf::<P>(stay, swept.desk.signals, swept.desk.signals.len());
    }
}

/// Every instance is accounted for over a tick: the instances that were
/// free or held before it are those that are free or held after it together
/// with those that left the system in it, each as often on one side as on
/// the other. So the number of instances of a kind, free and held together,
/// stays as it is but for those that left.
pub proof fn law_instances_are_accounted_for<P: Process>(
    k: KernelModel<P::Local>,
    machine: Seq<MachineOpView>,
)
    requires
        all_wf::<P>(k.processes),
    ensures
        in_system(tick_model::<P>(k, machine).kernel).add(gone_in_tick::<P>(k, machine))
            == in_system(k),
        forall|kind: usize|
            count_of_kind(in_system(tick_model::<P>(k, machine).kernel), kind) + count_of_kind(
                gone_in_tick::<P>(k, machine),
                kind,
            ) == #[trigger] count_of_kind(in_system(k), kind),
{
    broadcast use vstd::multiset::group_multiset_axioms;

    let start = tick_start::<P>(k, machine);
    let swept = tick_sweep::<P>(k, machine);
    let after = tick_model::<P>(k, machine).kernel;
    let gone = gone_in_tick::<P>(k, machine);
    lemma_tick_start::<P>(k, machine);
    lemma_sweep_orderly::<P>(start, k.processes.len());
    let during = gone_in_sweep::<P>(start, k.processes.len());
    if swept.desk.fault is None {
        let all = swept.processes + swept.desk.spawned;
        let stay = survivors(all, swept.desk.doomed);
        lemma_held_by_concat(swept.processes, swept.desk.spawned);
        lemma_held_by_split(all, stays(swept.desk.doomed), leaves(swept.desk.doomed));
        lemma_deliver_all_changes_states(stay, swept.desk.signals, swept.desk.signals.len());
        lemma_held_by_same_holdings(after.processes, stay);
        assert forall|r: Resource| in_system(after).add(gone).count(r) == in_system(k).count(
            r,
        ) by {
            assert(held_by(stay).add(held_by(all.filter(leaves(swept.desk.doomed)))).count(r)
                == held_by(all).count(r));
            assert(in_sweep(swept).add(during).count(r) == in_sweep(start).count(r));
        }
    } else {
        assert forall|r: Resource| in_system(after).add(gone).count(r) == in_system(k).count(
            r,
        ) by {
            assert(in_sweep(swept).add(during).count(r) == in_sweep(start).count(r));
        }
    }
    assert(in_system(after).add(gone) =~= in_system(k));
    assert forall|kind: usize|
        count_of_kind(in_system(after), kind) + count_of_kind(gone, kind) == #[trigger] count_of_kind(
            in_system(k),
            kind,
        ) by {
        lemma_count_of_kind_adds(in_system(after), gone, kind);
    }
}

/// No tick makes an instance: every instance that is free or held after a
/// tick was free or held before it, and as often.
pub proof fn law_no_instance_is_made<P: Process>(
    k: KernelModel<P::Local>,
    machine: Seq<MachineOpView>,
)
    requires
        all_wf::<P>(k.processes),
    ensures
        in_system(tick_model::<P>(k, machine).kernel).subset_of(in_system(k)),
{
    broadcast use vstd::multiset::group_multiset_axioms;

    law_instances_are_accounted_for::<P>(k, machine);
    let after = in_system(tick_model::<P>(k, machine).kernel);
    assert forall|r: Resource| after.count(r) <= in_system(k).count(r) by {
        assert(after.add(gone_in_tick::<P>(k, machine)).count(r) == in_system(k).count(r));
    }
}

/// An instance is in one place at most: where every instance of the system
/// is there once before a tick, none is there twice after it, neither free
/// and held nor held by two processes.
pub proof fn law_instances_stay_exclusive<P: Process>(
    k: KernelModel<P::Local>,
    machine: Seq<MachineOpView>,
)
    requires
        all_wf::<P>(k.processes),
        forall|r: Resource| in_system(k).count(r) <= 1,
    ensures
        forall|r: Resource| in_system(tick_model::<P>(k, machine).kernel).count(r) <= 1,
{
    law_no_instance_is_made::<P>(k, machine);
    assert forall|r: Resource| in_system(tick_model::<P>(k, machine).kernel).count(r) <= 1 by {
        assert(in_system(tick_model::<P>(k, machine).kernel).count(r) <= in_system(k).count(r));
    }
}

/// The number of instances of a kind, free and held together, never grows.
pub proof fn law_kind_count_never_grows<P: Process>(
    k: KernelModel<P::Local>,
    machine: Seq<MachineOpView>,
    kind: usize,
)
    requires
        all_wf::<P>(k.processes),
    ensures
        count_of_kind(in_system(tick_model::<P>(k, machine).kernel), kind) <= count_of_kind(
            in_system(k),
            kind,
        ),
{
    law_no_instance_is_made::<P>(k, machine);
    lemma_count_of_kind_grows(in_system(tick_model::<P>(k, machine).kernel), in_system(k), kind);
}

/// Once visited, a process is as its visit left it until the sweep ends.
pub proof fn lemma_sweep_settled<P: Process>(start: SweepModel<P::Local>, j: nat, n: nat)
    requires
        j < n,
        j < start.processes.len(),
    ensures
        sweep::<P>(start, n).processes[j as int] == sweep::<P>(start, j + 1).processes[j as int],
    decreases n,
{
    if n > j + 1 {
        lemma_sweep_settled::<P>(start, j, (n - 1) as nat);
        lemma_sweep_len::<P>(start, (n - 1) as nat);
    }
}

/// Marks and waiting processes are only added to as a sweep goes on.
pub proof fn lemma_sweep_gathers<P: Process>(start: SweepModel<P::Local>, m: nat, n: nat)
    requires
        all_wf::<P>(start.processes),
        all_wf::<P>(start.desk.spawned),
        m <= n,
    ensures
        sweep::<P>(start, m).desk.doomed.is_prefix_of(sweep::<P>(start, n).desk.doomed),
        sweep::<P>(start, m).desk.spawned.is_prefix_of(sweep::<P>(start, n).desk.spawned),
    decreases n,
{
    if m < n {
        let before = sweep::<P>(start, (n - 1) as nat);
        lemma_sweep_gathers::<P>(start, m, (n - 1) as nat);
        lemma_sweep_orderly::<P>(start, (n - 1) as nat);
        if !(before.desk.fault is Some || n > before.processes.len()) {
            lemma_visit_accounts::<P>(before.processes[n - 1], before.desk);
        }
    }
}

/// The processes are visited in ascending priority, those of one priority in
/// the order in which the last tick left them: the list is put in that order
/// when the tick begins, and the visit that follows the first `n` finds the
/// process at the position `n` of that order, as it was when the tick began.
pub proof fn law_priority_order<P: Process>(
    k: KernelModel<P::Local>,
    machine: Seq<MachineOpView>,
    n: nat,
    priority: usize,
)
    requires
        all_wf::<P>(k.processes),
        n < k.processes.len(),
    ensures
        in_priority_order(tick_start::<P>(k, machine).processes),
        tick_start::<P>(k, machine).processes.filter(of_priority(priority)) == k.processes.filter(
            of_priority(priority),
        ),
        tick_start::<P>(k, machine).processes.to_multiset() == k.processes.to_multiset(),
        sweep::<P>(tick_start::<P>(k, machine), n).processes[n as int] == tick_start::<P>(
            k,
            machine,
        ).processes[n as int],
{
    lemma_sort_orders(k.processes);
    lemma_sort_is_stable(k.processes, priority);
    lemma_sort_permutes(k.processes);
    lemma_tick_start::<P>(k, machine);
    lemma_sweep_orderly::<P>(tick_start::<P>(k, machine), n);
}

/// A process that is marked for removal during a tick stays in the list
/// until the sweep has ended, and is gone when the tick has: the list keeps
/// its length and every place its process all through the sweep, and no
/// process with a marked id is left after a tick that ends without
/// violation.
pub proof fn law_termination_barrier<P: Process>(
    k: KernelModel<P::Local>,
    machine: Seq<MachineOpView>,
    marked_by: nat,
    seen_at: nat,
    id: usize,
)
    requires
        all_wf::<P>(k.processes),
        marked_by <= k.processes.len(),
        sweep::<P>(tick_start::<P>(k, machine), marked_by).desk.doomed.contains(id),
    ensures
        sweep::<P>(tick_start::<P>(k, machine), seen_at).processes.len() == k.processes.len(),
        forall|j: int|
            0 <= j < k.processes.len() ==> (#[trigger] sweep::<P>(
                tick_start::<P>(k, machine),
                seen_at,
            ).processes[j]).id == tick_start::<P>(k, machine).processes[j].id,
        tick_model::<P>(k, machine).fault is None ==> forall|q: int|
            0 <= q < tick_model::<P>(k, machine).kernel.processes.len() ==> (
            #[trigger] tick_model::<P>(k, machine).kernel.processes[q]).id != id,
{
    let start = tick_start::<P>(k, machine);
    let swept = tick_sweep::<P>(k, machine);
    let after = tick_model::<P>(k, machine).kernel;
    lemma_tick_start::<P>(k, machine);
    lemma_sweep_orderly::<P>(start, seen_at);
    if swept.desk.fault is None {
        lemma_sweep_gathers::<P>(start, marked_by, k.processes.len());
        let marks = sweep::<P>(start, marked_by).desk.doomed;
        let at = choose|at: int| 0 <= at < marks.len() && marks[at] == id;
        assert(swept.desk.doomed[at] == id);
        let all = swept.processes + swept.desk.spawned;
        let stay = survivors(all, swept.desk.doomed);
        lemma_deliver_all_changes_states(stay, swept.desk.signals, swept.desk.signals.len());
        assert forall|q: int| 0 <= q < after.processes.len() implies (
        #[trigger] after.processes[q]).id != id by {
            all.lemma_filter_pred(stays(swept.desk.doomed), q);
            assert(same_but_state(after.processes[q], stay[q]));
        }
    }
}

/// The exit of a ready process is marked at once: the step reports the id of
/// the process itself, and the visit puts it among the marks.
pub proof fn law_exit_is_marked<P: Process>(p: ProcessModel<P::Local>, desk: DeskModel<P::Local>)
    requires
        P::wf(p),
        P::step_model(p, desk.machine).outcome is Some,
        P::step_model(p, desk.machine).outcome->Some_0 is Terminate,
    ensures
        run_ready::<P>(p, desk).desk.doomed
            == desk.doomed.push(p.id),
        run_ready::<P>(p, desk).process == P::step_model(
            p,
            desk.machine,
        ).next,
{
    P::lemma_step_lawful(p, desk.machine);
}

/// A process spawned during a tick is not in the list while the tick sweeps
/// it, and is scheduled when the tick has ended without violation, unless
/// its id is marked for removal: it is in the list then as it was spawned,
/// but for a state that a signal may have given it, and the next tick puts
/// it in its place by priority.
pub proof fn law_spawn_barrier<P: Process>(
    k: KernelModel<P::Local>,
    machine: Seq<MachineOpView>,
    spawned_by: nat,
    seen_at: nat,
    child: ProcessModel<P::Local>,
)
    requires
        all_wf::<P>(k.processes),
        spawned_by <= k.processes.len(),
        sweep::<P>(tick_start::<P>(k, machine), spawned_by).desk.spawned.contains(child),
        tick_model::<P>(k, machine).fault is None,
        !tick_sweep::<P>(k, machine).desk.doomed.contains(child.id),
    ensures
        sweep::<P>(tick_start::<P>(k, machine), seen_at).processes.len() == k.processes.len(),
        forall|j: int|
            0 <= j < k.processes.len() ==> (#[trigger] sweep::<P>(
                tick_start::<P>(k, machine),
                seen_at,
            ).processes[j]).id == tick_start::<P>(k, machine).processes[j].id,
        exists|q: int|
            0 <= q < tick_model::<P>(k, machine).kernel.processes.len() && same_but_state(
                #[trigger] tick_model::<P>(k, machine).kernel.processes[q],
                child,
            ),
        in_priority_order(sort_by_priority(tick_model::<P>(k, machine).kernel.processes)),
        exists|q: int|
            0 <= q < tick_model::<P>(k, machine).kernel.processes.len() && same_but_state(
                #[trigger] sort_by_priority(tick_model::<P>(k, machine).kernel.processes)[q],
                child,
            ),
{
    broadcast use vstd::seq_lib::group_to_multiset_ensures;

    let start = tick_start::<P>(k, machine);
    let swept = tick_sweep::<P>(k, machine);
    let after = tick_model::<P>(k, machine).kernel;
    lemma_tick_start::<P>(k, machine);
    lemma_sweep_orderly::<P>(start, seen_at);
    lemma_sweep_gathers::<P>(start, spawned_by, k.processes.len());
    let waiting = sweep::<P>(start, spawned_by).desk.spawned;
    let at = choose|at: int| 0 <= at < waiting.len() && waiting[at] == child;
    assert(swept.desk.spawned[at] == child);
    let all = swept.processes + swept.desk.spawned;
    let stay = survivors(all, swept.desk.doomed);
    assert(all[swept.processes.len() + at] == child);
    all.lemma_filter_contains(stays(swept.desk.doomed), swept.processes.len() + at);
    let q = choose|q: int| 0 <= q < stay.len() && stay[q] == child;
    lemma_deliver_all_changes_states(stay, swept.desk.signals, swept.desk.signals.len());
    assert(same_but_state(after.processes[q], child));
    lemma_sort_orders(after.processes);
    lemma_sort_permutes(after.processes);
    let sorted = sort_by_priority(after.processes);
    assert(after.processes.contains(after.processes[q]));
    assert(sorted.to_multiset().count(after.processes[q]) > 0);
    assert(sorted.contains(after.processes[q]));
    let r = choose|r: int| 0 <= r < sorted.len() && sorted[r] == after.processes[q];
    assert(same_but_state(sorted[r], child));
}

/// What a request is answered with. Where an instance of the kind is free,
/// the oldest one leaves the pool and the process holds it; where none is,
/// the process and the pool stay as they are. The attempt is reported either
/// way.
pub proof fn law_request_answer<L>(p: ProcessModel<L>, desk: DeskModel<L>, kind: usize)
    ensures
        holds_kind(desk.pool, kind) ==> {
            let oldest = first_of_kind(desk.pool, kind);
            &&& 0 <= oldest < desk.pool.len()
            &&& desk.pool[oldest]@.kind == kind
            &&& grant(p, desk, kind).process == (ProcessModel {
                held: p.held.push(desk.pool[oldest]),
                ..p
            })
            &&& holds_kind(grant(p, desk, kind).process.held, kind)
            &&& grant(p, desk, kind).desk.pool == desk.pool.remove(oldest)
        },
        !holds_kind(desk.pool, kind) ==> grant(p, desk, kind).process == p && grant(
            p,
            desk,
            kind,
        ).desk.pool == desk.pool,
        grant(p, desk, kind).desk.trace == desk.trace.push(
            TraceEvent::Request { kind, id: p.id, granted: holds_kind(desk.pool, kind) },
        ),
{
    lemma_first_of_kind(desk.pool, kind);
    if holds_kind(desk.pool, kind) {
        let oldest = first_of_kind(desk.pool, kind);
        let held = p.held.push(desk.pool[oldest]);
        assert(held[p.held.len() as int]@.kind == kind);
    }
}

/// A request that a step reports is answered in the same visit: at once for
/// a blocked process and for a ready one, and for a ready process also where
/// it comes from the second step, after a first that reported nothing.
pub proof fn law_request_is_answered<P: Process>(
    p: ProcessModel<P::Local>,
    desk: DeskModel<P::Local>,
    kind: usize,
)
    ensures
        P::step_model(p, desk.machine).outcome == Some(OutcomeModel::<P::Local>::Request(kind))
            ==> {
            let stepped = advance::<P>(p, desk);
            &&& run_blocked::<P>(p, desk) == grant(stepped.process, stepped.desk, kind)
            &&& run_ready::<P>(p, desk) == grant(stepped.process, stepped.desk, kind)
        },
        P::step_model(p, desk.machine).outcome is None && P::step_model(
            advance::<P>(p, desk).process,
            advance::<P>(p, desk).desk.machine,
        ).outcome == Some(OutcomeModel::<P::Local>::Request(kind)) ==> {
            let stepped = advance::<P>(p, desk);
            let again = advance::<P>(stepped.process, stepped.desk);
            run_ready::<P>(p, desk) == grant(again.process, again.desk, kind)
        },
{
}

/// A violation stops a sweep for good: a sweep that ends without one had
/// none on the way.
pub proof fn lemma_sweep_was_clean<P: Process>(start: SweepModel<P::Local>, m: nat, n: nat)
    requires
        m <= n,
        sweep::<P>(start, n).desk.fault is None,
    ensures
        sweep::<P>(start, m).desk.fault is None,
{
    if sweep::<P>(start, m).desk.fault is Some {
        lemma_sweep_stops::<P>(start, m, n);
    }
}

/// What a process is when its visit ends, it is when the tick ends, but for
/// a state that a signal may give it: where the tick ends without violation
/// and the process is not marked for removal, it is in the list afterwards
/// with what it held at the end of its visit.
pub proof fn law_visit_outlasts_the_tick<P: Process>(
    k: KernelModel<P::Local>,
    machine: Seq<MachineOpView>,
    n: nat,
)
    requires
        all_wf::<P>(k.processes),
        n < k.processes.len(),
        tick_model::<P>(k, machine).fault is None,
        !tick_sweep::<P>(k, machine).desk.doomed.contains(
            tick_start::<P>(k, machine).processes[n as int].id,
        ),
    ensures
        sweep::<P>(tick_start::<P>(k, machine), n + 1).processes[n as int] == visit::<P>(
            tick_start::<P>(k, machine).processes[n as int],
            sweep::<P>(tick_start::<P>(k, machine), n).desk,
        ).process,
        exists|q: int|
            0 <= q < tick_model::<P>(k, machine).kernel.processes.len() && same_but_state(
                #[trigger] tick_model::<P>(k, machine).kernel.processes[q],
                sweep::<P>(tick_start::<P>(k, machine), n + 1).processes[n as int],
            ),
{
    let start = tick_start::<P>(k, machine);
    let swept = tick_sweep::<P>(k, machine);
    let after = tick_model::<P>(k, machine).kernel;
    lemma_tick_start::<P>(k, machine);
    lemma_sweep_orderly::<P>(start, n);
    lemma_sweep_orderly::<P>(start, k.processes.len());
    lemma_sweep_was_clean::<P>(start, n, k.processes.len());
    if n + 1 < k.processes.len() {
        lemma_sweep_settled::<P>(start, n, k.processes.len());
    }
    let visited = sweep::<P>(start, n + 1).processes[n as int];
    assert(swept.processes[n as int] == visited);
    let all = swept.processes + swept.desk.spawned;
    let stay = survivors(all, swept.desk.doomed);
    assert(all[n as int] == visited);
    all.lemma_filter_contains(stays(swept.desk.doomed), n as int);
    let q = choose|q: int| 0 <= q < stay.len() && stay[q] == visited;
    lemma_deliver_all_changes_states(stay, swept.desk.signals, swept.desk.signals.len());
    assert(same_but_state(after.processes[q], visited));
}

/// A process whose visit ends with the answer to a request for a kind holds
/// an instance of that kind after the tick where one was free, and holds
/// what it held before the answer where none was; it stays scheduled either
/// way, and may ask again. This is said of a tick that ends without
/// violation and of a process that is not marked for removal.
pub proof fn law_grant_correctness<P: Process>(
    k: KernelModel<P::Local>,
    machine: Seq<MachineOpView>,
    n: nat,
    asking: ProcessModel<P::Local>,
    desk: DeskModel<P::Local>,
    kind: usize,
)
    requires
        all_wf::<P>(k.processes),
        n < k.processes.len(),
        tick_model::<P>(k, machine).fault is None,
        !tick_sweep::<P>(k, machine).desk.doomed.contains(
            tick_start::<P>(k, machine).processes[n as int].id,
        ),
        visit::<P>(
            tick_start::<P>(k, machine).processes[n as int],
            sweep::<P>(tick_start::<P>(k, machine), n).desk,
        ) == grant(asking, desk, kind),
    ensures
        exists|q: int|
            0 <= q < tick_model::<P>(k, machine).kernel.processes.len() && (
            #[trigger] tick_model::<P>(k, machine).kernel.processes[q]).id == asking.id && (
            if holds_kind(desk.pool, kind) {
                holds_kind(tick_model::<P>(k, machine).kernel.processes[q].held, kind)
            } else {
                tick_model::<P>(k, machine).kernel.processes[q].held == asking.held
            }),
{
    law_visit_outlasts_the_tick::<P>(k, machine, n);
    law_request_answer(asking, desk, kind);
    let after = tick_model::<P>(k, machine).kernel;
    let visited = sweep::<P>(tick_start::<P>(k, machine), n + 1).processes[n as int];
    let q = choose|q: int|
        0 <= q < after.processes.len() && same_but_state(#[trigger] after.processes[q], visited);
    assert(after.processes[q].id == asking.id);
}

/// No run of ticks makes an instance, however long it is.
pub proof fn law_no_run_makes_an_instance<P: Process>(
    k: KernelModel<P::Local>,
    machine: Seq<MachineOpView>,
    ticks: nat,
)
    requires
        all_wf::<P>(k.processes),
    ensures
        all_wf::<P>(run_model::<P>(k, machine, ticks).kernel.processes),
        in_system(run_model::<P>(k, machine, ticks).kernel).subset_of(in_system(k)),
    decreases ticks,
{
    broadcast use vstd::multiset::group_multiset_axioms;

    if ticks > 0 {
        let before = run_model::<P>(k, machine, (ticks - 1) as nat);
        law_no_run_makes_an_instance::<P>(k, machine, (ticks - 1) as nat);
        if before.fault is None {
            lemma_tick_keeps_wf::<P>(before.kernel, before.machine);
            law_no_instance_is_made::<P>(before.kernel, before.machine);
        }
    }
}

} // verus!
