use vstd::prelude::*;
use vstd::multiset::Multiset;
use crate::consts::{P_BLOCKED, P_READY};
use crate::operating_system::process::{handed_over, OutcomeModel, Process, ProcessModel};
use crate::operating_system::resource::Resource;
use crate::operating_system::resource_list::{
    first_of_kind, holds_kind, is_kind, lemma_remove_accounts,
};
use crate::operating_system::schedule::{
    advance, all_wf, deliver, grant, run_blocked, run_ready, settle, take_in, visit, DeskModel,
    KernelModel, VisitModel,
};
use crate::real_machine::processor::MachineOpView;

verus! {

/// The instances that the processes of a list hold, all together.
pub open spec fn held_by<L>(processes: Seq<ProcessModel<L>>) -> Multiset<Resource>
    decreases processes.len(),
{
    if processes.len() == 0 {
        Multiset::empty()
    } else {
        held_by(processes.drop_last()).add(processes.last().held.to_multiset())
    }
}

/// The instances in the system: the free ones and those that the scheduled
/// processes hold.
pub open spec fn in_system<L>(k: KernelModel<L>) -> Multiset<Resource> {
    k.pool.to_multiset().add(held_by(k.processes))
}

/// The instances within reach of a visit: those of the visited process, the
/// free ones and those of the processes waiting to be scheduled.
pub open spec fn in_visit<L>(v: VisitModel<L>) -> Multiset<Resource> {
    v.process.held.to_multiset().add(v.desk.pool.to_multiset()).add(held_by(v.desk.spawned))
}

pub proof fn lemma_held_by_push<L>(processes: Seq<ProcessModel<L>>, p: ProcessModel<L>)
    ensures
        held_by(processes.push(p)) == held_by(processes).add(p.held.to_multiset()),
{
    assert(processes.push(p).drop_last() =~= processes);
}

pub proof fn lemma_held_by_concat<L>(a: Seq<ProcessModel<L>>, b: Seq<ProcessModel<L>>)
    ensures
        held_by(a + b) == held_by(a).add(held_by(b)),
    decreases b.len(),
{
    broadcast use vstd::multiset::group_multiset_axioms;

    if b.len() == 0 {
        assert(a + b =~= a);
        assert(held_by(a).add(held_by(b)) =~= held_by(a));
    } else {
        lemma_held_by_concat(a, b.drop_last());
        assert((a + b).drop_last() =~= a + b.drop_last());
        assert(held_by(a + b) =~= held_by(a).add(held_by(b)));
    }
}

/// Putting `p` in the place of a process takes the holdings of the one out
/// of the total and those of the other in.
pub proof fn lemma_held_by_update<L>(processes: Seq<ProcessModel<L>>, at: int, p: ProcessModel<L>)
    requires
        0 <= at < processes.len(),
    ensures
        held_by(processes.update(at, p)).add(processes[at].held.to_multiset()) == held_by(
            processes,
        ).add(p.held.to_multiset()),
{
    broadcast use vstd::multiset::group_multiset_axioms;

    let front = processes.take(at);
    let back = processes.skip(at + 1);
    assert(processes =~= front.push(processes[at]) + back);
    assert(processes.update(at, p) =~= front.push(p) + back);
    lemma_held_by_concat(front.push(processes[at]), back);
    lemma_held_by_concat(front.push(p), back);
    lemma_held_by_push(front, processes[at]);
    lemma_held_by_push(front, p);
    assert(held_by(processes.update(at, p)).add(processes[at].held.to_multiset()) =~= held_by(
        processes,
    ).add(p.held.to_multiset()));
}

/// A process put into a list adds its holdings to the total.
pub proof fn lemma_held_by_insert<L>(processes: Seq<ProcessModel<L>>, at: int, p: ProcessModel<L>)
    requires
        0 <= at <= processes.len(),
    ensures
        held_by(processes.insert(at, p)) == held_by(processes).add(p.held.to_multiset()),
{
    broadcast use vstd::multiset::group_multiset_axioms;

    let front = processes.take(at);
    let back = processes.skip(at);
    assert(processes =~= front + back);
    assert(processes.insert(at, p) =~= front.push(p) + back);
    lemma_held_by_concat(front, back);
    lemma_held_by_concat(front.push(p), back);
    lemma_held_by_push(front, p);
    assert(held_by(processes.insert(at, p)) =~= held_by(processes).add(p.held.to_multiset()));
}

/// The processes that a test picks out of a list and those that it leaves
/// hold, together, what the whole list holds.
pub proof fn lemma_held_by_split<L>(
    processes: Seq<ProcessModel<L>>,
    picked: spec_fn(ProcessModel<L>) -> bool,
    left: spec_fn(ProcessModel<L>) -> bool,
)
    requires
        forall|p: ProcessModel<L>| #[trigger] left(p) == !picked(p),
    ensures
        held_by(processes.filter(picked)).add(held_by(processes.filter(left))) == held_by(
            processes,
        ),
    decreases processes.len(),
{
    broadcast use vstd::multiset::group_multiset_axioms;

    if processes.len() == 0 {
        assert(processes.filter(picked) =~= processes && processes.filter(left) =~= processes) by {
            reveal(Seq::filter);
        }
    } else {
        let front = processes.drop_last();
        let last = processes.last();
        lemma_held_by_split(front, picked, left);
        assert(processes =~= front.push(last));
        front.lemma_filter_push(last, picked);
        front.lemma_filter_push(last, left);
        lemma_held_by_push(front.filter(picked), last);
        lemma_held_by_push(front.filter(left), last);
        assert(left(last) == !picked(last));
    }
    assert(held_by(processes.filter(picked)).add(held_by(processes.filter(left))) =~= held_by(
        processes,
    ));
}

/// The number of instances of `kind` among `instances`.
pub open spec fn count_of_kind(instances: Multiset<Resource>, kind: usize) -> nat {
    instances.filter(is_kind(kind)).len()
}

/// The instances of a kind in two lots are those of the one and those of the
/// other.
pub proof fn lemma_count_of_kind_adds(a: Multiset<Resource>, b: Multiset<Resource>, kind: usize)
    ensures
        count_of_kind(a.add(b), kind) == count_of_kind(a, kind) + count_of_kind(b, kind),
{
    broadcast use vstd::multiset::group_multiset_axioms;

    assert(a.add(b).filter(is_kind(kind)) =~= a.filter(is_kind(kind)).add(
        b.filter(is_kind(kind)),
    ));
}

/// A part has no more instances of a kind than the whole.
pub proof fn lemma_count_of_kind_grows(part: Multiset<Resource>, whole: Multiset<Resource>, kind: usize)
    requires
        part.subset_of(whole),
    ensures
        count_of_kind(part, kind) <= count_of_kind(whole, kind),
{
    broadcast use vstd::multiset::group_multiset_axioms;

    let a = part.filter(is_kind(kind));
    let b = whole.filter(is_kind(kind));
    assert(b =~= a.add(b.sub(a)));
}

/// Lists that agree on what each process holds hold the same in total.
pub proof fn lemma_held_by_same_holdings<L>(a: Seq<ProcessModel<L>>, b: Seq<ProcessModel<L>>)
    requires
        a.len() == b.len(),
        forall|i: int| 0 <= i < a.len() ==> (#[trigger] a[i]).held == b[i].held,
    ensures
        held_by(a) == held_by(b),
    decreases a.len(),
{
    if a.len() > 0 {
        assert(a.last().held == b.last().held);
        assert forall|i: int| 0 <= i < a.drop_last().len() implies (
        #[trigger] a.drop_last()[i]).held == b.drop_last()[i].held by {
            assert(a.drop_last()[i] == a[i]);
            assert(b.drop_last()[i] == b[i]);
        }
        lemma_held_by_same_holdings(a.drop_last(), b.drop_last());
    }
}

/// What every part of a visit respects: the process keeps its id and can
/// still be stepped, so can the processes waiting to be scheduled, and the
/// removal marks and the waiting processes are only added to.
pub open spec fn orderly<P: Process>(before: VisitModel<P::Local>, after: VisitModel<P::Local>)
    -> bool {
    &&& after.process.id == before.process.id
    &&& P::wf(after.process)
    &&& all_wf::<P>(after.desk.spawned)
    &&& before.desk.doomed.is_prefix_of(after.desk.doomed)
    &&& before.desk.spawned.is_prefix_of(after.desk.spawned)
}

/// A visit starts from a process that can be stepped, as can the processes
/// waiting to be scheduled.
pub open spec fn fit<P: Process>(v: VisitModel<P::Local>) -> bool {
    P::wf(v.process) && all_wf::<P>(v.desk.spawned)
}

/// The instances that a step of `p` uses up: those that `p` held and that it
/// neither holds afterwards nor hands over.
pub open spec fn used_up<P: Process>(p: ProcessModel<P::Local>, machine: Seq<MachineOpView>)
    -> Multiset<Resource> {
    let step = P::step_model(p, machine);
    p.held.to_multiset().sub(step.next.held.to_multiset().add(handed_over(step.outcome)))
}

/// The instances that leave the system with a step whose report the kernel
/// does not act on: those that the step uses up and those that it hands over.
pub open spec fn gone_unheard<P: Process>(p: ProcessModel<P::Local>, machine: Seq<MachineOpView>)
    -> Multiset<Resource> {
    used_up::<P>(p, machine).add(handed_over(P::step_model(p, machine).outcome))
}

/// The instances that leave the system while the kernel acts on what a ready
/// process reported: after a release, those that go with the step that
/// follows it.
pub open spec fn gone_in_settling<P: Process>(
    p: ProcessModel<P::Local>,
    desk: DeskModel<P::Local>,
    outcome: OutcomeModel<P::Local>,
) -> Multiset<Resource> {
    match outcome {
        OutcomeModel::Release(_) => gone_unheard::<P>(p, desk.machine),
        _ => Multiset::empty(),
    }
}

/// The instances that leave the system in the visit of a ready process.
pub open spec fn gone_while_ready<P: Process>(p: ProcessModel<P::Local>, desk: DeskModel<P::Local>)
    -> Multiset<Resource> {
    let first = P::step_model(p, desk.machine);
    let stepped = advance::<P>(p, desk);
    used_up::<P>(p, desk.machine).add(
        match first.outcome {
            Some(outcome) => gone_in_settling::<P>(stepped.process, stepped.desk, outcome),
            None => {
                let second = P::step_model(stepped.process, stepped.desk.machine);
                let again = advance::<P>(stepped.process, stepped.desk);
                used_up::<P>(stepped.process, stepped.desk.machine).add(
                    match second.outcome {
                        Some(outcome) => gone_in_settling::<P>(again.process, again.desk, outcome),
                        None => Multiset::empty(),
                    },
                )
            },
        },
    )
}

/// The instances that leave the system in the visit of a blocked process:
/// those that its step uses up, and in a violation those that it hands over.
pub open spec fn gone_while_blocked<P: Process>(
    p: ProcessModel<P::Local>,
    desk: DeskModel<P::Local>,
) -> Multiset<Resource> {
    match P::step_model(p, desk.machine).outcome {
        None => used_up::<P>(p, desk.machine),
        Some(OutcomeModel::Request(_)) => used_up::<P>(p, desk.machine),
        Some(_) => gone_unheard::<P>(p, desk.machine),
    }
}

/// The instances that leave the system in one visit.
pub open spec fn gone_in_visit<P: Process>(p: ProcessModel<P::Local>, desk: DeskModel<P::Local>)
    -> Multiset<Resource> {
    if desk.doomed.contains(p.id) {
        Multiset::empty()
    } else {
        let told = deliver(p, desk);
        let woken = if told.process.state == P_BLOCKED {
            run_blocked::<P>(told.process, told.desk)
        } else {
            told
        };
        let early = if told.process.state == P_BLOCKED {
            gone_while_blocked::<P>(told.process, told.desk)
        } else {
            Multiset::empty()
        };
        if woken.desk.fault is None && woken.process.state == P_READY {
            early.add(gone_while_ready::<P>(woken.process, woken.desk))
        } else {
            early
        }
    }
}

proof fn lemma_deliver_accounts<P: Process>(p: ProcessModel<P::Local>, desk: DeskModel<P::Local>)
    requires
        fit::<P>(VisitModel { process: p, desk }),
    ensures
        orderly::<P>(VisitModel { process: p, desk }, deliver(p, desk)),
        in_visit(deliver(p, desk)) == in_visit(VisitModel { process: p, desk }),
        deliver(p, desk).desk.fault == desk.fault,
{
    let told = deliver(p, desk);
    if told.process != p {
        P::lemma_kernel_keeps_wf(p, told.process.state, arbitrary());
    }
}

proof fn lemma_grant_accounts<P: Process>(
    p: ProcessModel<P::Local>,
    desk: DeskModel<P::Local>,
    kind: usize,
)
    requires
        fit::<P>(VisitModel { process: p, desk }),
    ensures
        orderly::<P>(VisitModel { process: p, desk }, grant(p, desk, kind)),
        in_visit(grant(p, desk, kind)) == in_visit(VisitModel { process: p, desk }),
        grant(p, desk, kind).desk.fault == desk.fault,
{
    broadcast use vstd::multiset::group_multiset_axioms;
    broadcast use vstd::seq_lib::group_to_multiset_ensures;

    let after = grant(p, desk, kind);
    if holds_kind(desk.pool, kind) {
        lemma_remove_accounts(desk.pool, kind);
        P::lemma_kernel_keeps_wf(p, 0, desk.pool[first_of_kind(desk.pool, kind)]);
        assert(in_visit(after) =~= in_visit(VisitModel { process: p, desk }));
    }
}

proof fn lemma_advance_accounts<P: Process>(p: ProcessModel<P::Local>, desk: DeskModel<P::Local>)
    requires
        fit::<P>(VisitModel { process: p, desk }),
    ensures
        orderly::<P>(VisitModel { process: p, desk }, advance::<P>(p, desk)),
        in_visit(advance::<P>(p, desk)).add(gone_unheard::<P>(p, desk.machine)) == in_visit(
            VisitModel { process: p, desk },
        ),
        P::step_model(p, desk.machine).outcome matches Some(OutcomeModel::Spawn(child))
            ==> P::wf(child),
        advance::<P>(p, desk).desk.fault == desk.fault,
{
    broadcast use vstd::multiset::group_multiset_axioms;

    P::lemma_step_lawful(p, desk.machine);
    assert(in_visit(advance::<P>(p, desk)).add(gone_unheard::<P>(p, desk.machine)) =~= in_visit(
        VisitModel { process: p, desk },
    ));
}

proof fn lemma_settle_accounts<P: Process>(
    p: ProcessModel<P::Local>,
    desk: DeskModel<P::Local>,
    outcome: OutcomeModel<P::Local>,
)
    requires
        fit::<P>(VisitModel { process: p, desk }),
        outcome matches OutcomeModel::Spawn(child) ==> P::wf(child),
    ensures
        orderly::<P>(VisitModel { process: p, desk }, settle::<P>(p, desk, outcome)),
        in_visit(settle::<P>(p, desk, outcome)).add(gone_in_settling::<P>(p, desk, outcome))
            == in_visit(VisitModel { process: p, desk }).add(handed_over(Some(outcome))),
        settle::<P>(p, desk, outcome).desk.fault == desk.fault,
{
    broadcast use vstd::multiset::group_multiset_axioms;
    broadcast use vstd::seq_lib::group_to_multiset_ensures;

    let before = VisitModel { process: p, desk };
    let after = settle::<P>(p, desk, outcome);
    let gone = gone_in_settling::<P>(p, desk, outcome);
    match outcome {
        OutcomeModel::Request(kind) => {
            lemma_grant_accounts::<P>(p, desk, kind);
        },
        OutcomeModel::Release(res) => {
            let taken_in = take_in(desk, outcome);
            assert(in_visit(VisitModel { process: p, desk: taken_in }) =~= in_visit(before).add(
                handed_over(Some(outcome)),
            ));
            lemma_advance_accounts::<P>(p, taken_in);
        },
        OutcomeModel::Spawn(child) => {
            lemma_held_by_push(desk.spawned, child);
        },
        _ => {},
    }
    assert(in_visit(after).add(gone) =~= in_visit(before).add(handed_over(Some(outcome))));
}

proof fn lemma_run_ready_accounts<P: Process>(p: ProcessModel<P::Local>, desk: DeskModel<P::Local>)
    requires
        fit::<P>(VisitModel { process: p, desk }),
    ensures
        orderly::<P>(VisitModel { process: p, desk }, run_ready::<P>(p, desk)),
        in_visit(run_ready::<P>(p, desk)).add(gone_while_ready::<P>(p, desk)) == in_visit(
            VisitModel { process: p, desk },
        ),
        run_ready::<P>(p, desk).desk.fault == desk.fault,
{
    broadcast use vstd::multiset::group_multiset_axioms;

    let before = VisitModel { process: p, desk };
    let after = run_ready::<P>(p, desk);
    let first = P::step_model(p, desk.machine);
    let stepped = advance::<P>(p, desk);
    lemma_advance_accounts::<P>(p, desk);
    match first.outcome {
        Some(outcome) => {
            lemma_settle_accounts::<P>(stepped.process, stepped.desk, outcome);
            let settling = gone_in_settling::<P>(stepped.process, stepped.desk, outcome);
            assert forall|r: Resource|
                in_visit(after).add(gone_while_ready::<P>(p, desk)).count(r) == in_visit(
                    before,
                ).count(r) by {
                assert(in_visit(after).add(settling).count(r) == in_visit(stepped).add(
                    handed_over(first.outcome),
                ).count(r));
                assert(in_visit(stepped).add(gone_unheard::<P>(p, desk.machine)).count(r)
                    == in_visit(before).count(r));
            }
        },
        None => {
            let second = P::step_model(stepped.process, stepped.desk.machine);
            let again = advance::<P>(stepped.process, stepped.desk);
            lemma_advance_accounts::<P>(stepped.process, stepped.desk);
            match second.outcome {
                Some(outcome) => {
                    lemma_settle_accounts::<P>(again.process, again.desk, outcome);
                    let settling = gone_in_settling::<P>(again.process, again.desk, outcome);
                    assert forall|r: Resource|
                        in_visit(after).add(gone_while_ready::<P>(p, desk)).count(r) == in_visit(
                            before,
                        ).count(r) by {
                        assert(in_visit(after).add(settling).count(r) == in_visit(again).add(
                            handed_over(second.outcome),
                        ).count(r));
                        assert(in_visit(again).add(
                            gone_unheard::<P>(stepped.process, stepped.desk.machine),
                        ).count(r) == in_visit(stepped).count(r));
                        assert(in_visit(stepped).add(gone_unheard::<P>(p, desk.machine)).count(r)
                            == in_visit(before).count(r));
                    }
                },
                None => {
                    assert forall|r: Resource|
                        in_visit(after).add(gone_while_ready::<P>(p, desk)).count(r) == in_visit(
                            before,
                        ).count(r) by {
                        assert(in_visit(again).add(
                            gone_unheard::<P>(stepped.process, stepped.desk.machine),
                        ).count(r) == in_visit(stepped).count(r));
                        assert(in_visit(stepped).add(gone_unheard::<P>(p, desk.machine)).count(r)
                            == in_visit(before).count(r));
                    }
                },
            }
        },
    }
    assert(in_visit(after).add(gone_while_ready::<P>(p, desk)) =~= in_visit(before));
}

proof fn lemma_run_blocked_accounts<P: Process>(
    p: ProcessModel<P::Local>,
    desk: DeskModel<P::Local>,
)
    requires
        fit::<P>(VisitModel { process: p, desk }),
    ensures
        orderly::<P>(VisitModel { process: p, desk }, run_blocked::<P>(p, desk)),
        in_visit(run_blocked::<P>(p, desk)).add(gone_while_blocked::<P>(p, desk)) == in_visit(
            VisitModel { process: p, desk },
        ),
{
    broadcast use vstd::multiset::group_multiset_axioms;

    let step = P::step_model(p, desk.machine);
    let stepped = advance::<P>(p, desk);
    lemma_advance_accounts::<P>(p, desk);
    match step.outcome {
        Some(OutcomeModel::Request(kind)) => {
            lemma_grant_accounts::<P>(stepped.process, stepped.desk, kind);
        },
        _ => {},
    }
    assert(in_visit(run_blocked::<P>(p, desk)).add(gone_while_blocked::<P>(p, desk)) =~= in_visit(
        VisitModel { process: p, desk },
    ));
}

/// A visit is orderly, and it accounts for every instance: what was within
/// reach before it is within reach after it or has left the system.
pub proof fn lemma_visit_accounts<P: Process>(p: ProcessModel<P::Local>, desk: DeskModel<P::Local>)
    requires
        fit::<P>(VisitModel { process: p, desk }),
    ensures
        orderly::<P>(VisitModel { process: p, desk }, visit::<P>(p, desk)),
        in_visit(visit::<P>(p, desk)).add(gone_in_visit::<P>(p, desk)) == in_visit(
            VisitModel { process: p, desk },
        ),
{
    broadcast use vstd::multiset::group_multiset_axioms;

    if !desk.doomed.contains(p.id) {
        let told = deliver(p, desk);
        lemma_deliver_accounts::<P>(p, desk);
        let woken = if told.process.state == P_BLOCKED {
            run_blocked::<P>(told.process, told.desk)
        } else {
            told
        };
        if told.process.state == P_BLOCKED {
            lemma_run_blocked_accounts::<P>(told.process, told.desk);
        }
        if woken.desk.fault is None && woken.process.state == P_READY {
            lemma_run_ready_accounts::<P>(woken.process, woken.desk);
        }
    }
    assert(in_visit(visit::<P>(p, desk)).add(gone_in_visit::<P>(p, desk)) =~= in_visit(
        VisitModel { process: p, desk },
    ));
}

} // verus!
