use vstd::prelude::*;
use crate::consts::{P_BLOCKED, P_READY};
use crate::operating_system::process::{OutcomeModel, Process, ProcessModel};
use crate::operating_system::resource::Resource;
use crate::operating_system::resource_list::{after_take, taken};
use crate::operating_system::order::sort_by_priority;
use crate::operating_system::search::first_where;
use crate::operating_system::trace::{KernelError, TraceEvent};
use crate::real_machine::processor::MachineOpView;

verus! {

/// The kernel as plain values: the scheduled processes and the free instances.
pub struct KernelModel<L> {
    pub processes: Seq<ProcessModel<L>>,
    pub pool: Seq<Resource>,
}

/// What the kernel keeps beside the process list while it sweeps it.
pub struct DeskModel<L> {
    /// The free instances.
    pub pool: Seq<Resource>,
    /// The machine handed to every step.
    pub machine: Seq<MachineOpView>,
    /// The processes to schedule when the tick ends.
    pub spawned: Seq<ProcessModel<L>>,
    /// The ids to remove when the tick ends.
    pub doomed: Seq<usize>,
    /// The signals not yet delivered, as pairs of target and state.
    pub signals: Seq<(usize, usize)>,
    /// The events reported so far.
    pub trace: Seq<TraceEvent>,
    /// The violation that stopped the sweep, if one did.
    pub fault: Option<KernelError>,
}

/// A process and the desk, as one visit or a part of it leaves them.
pub struct VisitModel<L> {
    pub process: ProcessModel<L>,
    pub desk: DeskModel<L>,
}

/// The process list and the desk in the middle of a sweep.
pub struct SweepModel<L> {
    pub processes: Seq<ProcessModel<L>>,
    pub desk: DeskModel<L>,
}

/// A tick's result: the kernel and the machine after it, the events it
/// reported and the violation that ended it, if one did.
pub struct TickModel<L> {
    pub kernel: KernelModel<L>,
    pub machine: Seq<MachineOpView>,
    pub trace: Seq<TraceEvent>,
    pub fault: Option<KernelError>,
}

/// Every process of the list can be stepped.
pub open spec fn all_wf<P: Process>(processes: Seq<ProcessModel<P::Local>>) -> bool {
    forall|i: int| 0 <= i < processes.len() ==> P::wf(#[trigger] processes[i])
}

/// Whether a signal is meant for the process `id`.
pub open spec fn is_for(id: usize) -> spec_fn((usize, usize)) -> bool {
    |signal: (usize, usize)| signal.0 == id
}

/// Whether a process has the id `id`.
pub open spec fn has_id<L>(id: usize) -> spec_fn(ProcessModel<L>) -> bool {
    |p: ProcessModel<L>| p.id == id
}

/// The position in `signals` of the oldest signal for the process `id`, or
/// the length of `signals`.
pub open spec fn first_signal_for(signals: Seq<(usize, usize)>, id: usize) -> int {
    first_where(signals, is_for(id))
}

/// The position in `processes` of the first process with the id `id`, or the
/// length of `processes`.
pub open spec fn first_with_id<L>(processes: Seq<ProcessModel<L>>, id: usize) -> int {
    first_where(processes, has_id(id))
}

/// The desk a sweep starts from.
pub open spec fn clear_desk<L>(pool: Seq<Resource>, machine: Seq<MachineOpView>) -> DeskModel<L> {
    DeskModel {
        pool,
        machine,
        spawned: Seq::empty(),
        doomed: Seq::empty(),
        signals: Seq::empty(),
        trace: Seq::empty(),
        fault: None,
    }
}

/// Delivers to `p` the oldest signal left for it, if there is one: `p` takes
/// the signalled state and the signal leaves the desk.
pub open spec fn deliver<L>(p: ProcessModel<L>, desk: DeskModel<L>) -> VisitModel<L> {
    let at = first_signal_for(desk.signals, p.id);
    if at < desk.signals.len() {
        VisitModel {
            process: ProcessModel { state: desk.signals[at].1, ..p },
            desk: DeskModel { signals: desk.signals.remove(at), ..desk },
        }
    } else {
        VisitModel { process: p, desk }
    }
}

/// Answers a request of `p` for an instance of `kind`: the oldest free one
/// goes to `p`, if there is one, and the attempt is reported either way.
pub open spec fn grant<L>(p: ProcessModel<L>, desk: DeskModel<L>, kind: usize) -> VisitModel<L> {
    let event = TraceEvent::Request { kind, id: p.id, granted: taken(desk.pool, kind) is Some };
    VisitModel {
        process: match taken(desk.pool, kind) {
            Some(res) => ProcessModel { held: p.held.push(res), ..p },
            None => p,
        },
        desk: DeskModel { pool: after_take(desk.pool, kind), trace: desk.trace.push(event), ..desk },
    }
}

/// The desk after it has taken in what a ready process reported; a request is
/// not taken in here, it is answered by `grant`.
pub open spec fn take_in<L>(desk: DeskModel<L>, outcome: OutcomeModel<L>) -> DeskModel<L> {
    match outcome {
        OutcomeModel::Request(_) => desk,
        OutcomeModel::Release(res) => DeskModel { pool: desk.pool.push(res), ..desk },
        OutcomeModel::Spawn(child) => DeskModel { spawned: desk.spawned.push(child), ..desk },
        OutcomeModel::Terminate(id) => DeskModel {
            doomed: desk.doomed.push(id),
            trace: desk.trace.push(TraceEvent::Removal { id }),
            ..desk
        },
        OutcomeModel::Signal { target, state } => DeskModel {
            signals: desk.signals.push((target, state)),
            ..desk
        },
    }
}

/// One step of `p` on the desk's machine; what it reports is left aside.
pub open spec fn advance<P: Process>(p: ProcessModel<P::Local>, desk: DeskModel<P::Local>) -> VisitModel<
    P::Local,
> {
    let step = P::step_model(p, desk.machine);
    VisitModel { process: step.next, desk: DeskModel { machine: step.machine, ..desk } }
}

/// Acts on what a ready process `p` reported: a request is answered, anything
/// else is taken in by the desk, and after a release the process is stepped
/// once more, whatever that step reports.
pub open spec fn settle<P: Process>(
    p: ProcessModel<P::Local>,
    desk: DeskModel<P::Local>,
    outcome: OutcomeModel<P::Local>,
) -> VisitModel<P::Local> {
    match outcome {
        OutcomeModel::Request(kind) => grant(p, desk, kind),
        OutcomeModel::Release(_) => advance::<P>(p, take_in(desk, outcome)),
        _ => VisitModel { process: p, desk: take_in(desk, outcome) },
    }
}

/// The visit of a ready process: one step, a second one where the first
/// reported nothing, and the kernel's answer to what was reported.
pub open spec fn run_ready<P: Process>(p: ProcessModel<P::Local>, desk: DeskModel<P::Local>) -> VisitModel<
    P::Local,
> {
    let first = P::step_model(p, desk.machine);
    let stepped = advance::<P>(p, desk);
    match first.outcome {
        Some(outcome) => settle::<P>(stepped.process, stepped.desk, outcome),
        None => {
            let second = P::step_model(stepped.process, stepped.desk.machine);
            let again = advance::<P>(stepped.process, stepped.desk);
            match second.outcome {
                Some(outcome) => settle::<P>(again.process, again.desk, outcome),
                None => again,
            }
        },
    }
}

/// The visit of a blocked process: one step, which may report nothing or a
/// request; anything else is a violation that stops the sweep.
pub open spec fn run_blocked<P: Process>(p: ProcessModel<P::Local>, desk: DeskModel<P::Local>) -> VisitModel<
    P::Local,
> {
    let step = P::step_model(p, desk.machine);
    let stepped = advance::<P>(p, desk);
    match step.outcome {
        None => stepped,
        Some(OutcomeModel::Request(kind)) => grant(stepped.process, stepped.desk, kind),
        Some(_) => VisitModel {
            process: stepped.process,
            desk: DeskModel { fault: Some(KernelError::BlockedOutcome { id: p.id }), ..stepped.desk },
        },
    }
}

/// One visit. A process marked for removal is passed over. Any other takes
/// the oldest signal left for it, then runs as a blocked process if it is
/// blocked, and then, unless that stopped the sweep, as a ready process if it
/// is ready by now.
pub open spec fn visit<P: Process>(p: ProcessModel<P::Local>, desk: DeskModel<P::Local>) -> VisitModel<
    P::Local,
> {
    if desk.doomed.contains(p.id) {
        VisitModel { process: p, desk }
    } else {
        let told = deliver(p, desk);
        let woken = if told.process.state == P_BLOCKED {
            run_blocked::<P>(told.process, told.desk)
        } else {
            told
        };
        if woken.desk.fault is None && woken.process.state == P_READY {
            run_ready::<P>(woken.process, woken.desk)
        } else {
            woken
        }
    }
}

/// The sweep after the first `n` visits, in the order of the list; a
/// violation ends it.
pub open spec fn sweep<P: Process>(start: SweepModel<P::Local>, n: nat) -> SweepModel<P::Local>
    decreases n,
{
    if n == 0 {
        start
    } else {
        let before = sweep::<P>(start, (n - 1) as nat);
        if before.desk.fault is Some || n > before.processes.len() {
            before
        } else {
            let v = visit::<P>(before.processes[n - 1], before.desk);
            SweepModel { processes: before.processes.update(n - 1, v.process), desk: v.desk }
        }
    }
}

/// Whether a process stays when the ids in `doomed` are removed.
pub open spec fn stays<L>(doomed: Seq<usize>) -> spec_fn(ProcessModel<L>) -> bool {
    |p: ProcessModel<L>| !doomed.contains(p.id)
}

/// The processes that stay: those whose id is not marked for removal.
pub open spec fn survivors<L>(processes: Seq<ProcessModel<L>>, doomed: Seq<usize>) -> Seq<
    ProcessModel<L>,
> {
    processes.filter(stays(doomed))
}

/// The process list after the first `n` of `signals` were delivered in order,
/// each to the first process with the target's id, and the target that stopped
/// the delivery because no process has its id.
pub open spec fn deliver_all<L>(
    processes: Seq<ProcessModel<L>>,
    signals: Seq<(usize, usize)>,
    n: nat,
) -> (Seq<ProcessModel<L>>, Option<KernelError>)
    decreases n,
{
    if n == 0 {
        (processes, None)
    } else {
        let before = deliver_all(processes, signals, (n - 1) as nat);
        if before.1 is Some || n > signals.len() {
            before
        } else {
            let (target, state) = signals[n - 1];
            let at = first_with_id(before.0, target);
            if at < before.0.len() {
                (before.0.update(at, ProcessModel { state, ..before.0[at] }), None)
            } else {
                (before.0, Some(KernelError::UnknownTarget { id: target }))
            }
        }
    }
}

/// What the end of a tick makes of a finished sweep: the spawned processes
/// join the list, the processes marked for removal leave it, and the signals
/// still on the desk are delivered.
pub open spec fn conclude<L>(swept: SweepModel<L>) -> TickModel<L> {
    let stay = survivors(swept.processes + swept.desk.spawned, swept.desk.doomed);
    let told = deliver_all(stay, swept.desk.signals, swept.desk.signals.len());
    TickModel {
        kernel: KernelModel { processes: told.0, pool: swept.desk.pool },
        machine: swept.desk.machine,
        trace: swept.desk.trace,
        fault: told.1,
    }
}

/// One tick: the processes are put in priority order and visited once each;
/// then the tick is concluded. A violation during the sweep leaves the list
/// and the pool as the sweep left them, with nothing spawned, removed or
/// signalled.
pub open spec fn tick_model<P: Process>(k: KernelModel<P::Local>, machine: Seq<MachineOpView>)
    -> TickModel<P::Local> {
    let sorted = sort_by_priority(k.processes);
    let swept = sweep::<P>(
        SweepModel { processes: sorted, desk: clear_desk(k.pool, machine) },
        sorted.len(),
    );
    if swept.desk.fault is Some {
        TickModel {
            kernel: KernelModel { processes: swept.processes, pool: swept.desk.pool },
            machine: swept.desk.machine,
            trace: swept.desk.trace,
            fault: swept.desk.fault,
        }
    } else {
        conclude(swept)
    }
}

/// A sweep keeps the length of the list.
pub proof fn lemma_sweep_len<P: Process>(start: SweepModel<P::Local>, n: nat)
    ensures
        sweep::<P>(start, n).processes.len() == start.processes.len(),
    decreases n,
{
    if n > 0 {
        lemma_sweep_len::<P>(start, (n - 1) as nat);
    }
}

/// Once a violation has stopped a sweep, further visits change nothing.
pub proof fn lemma_sweep_stops<P: Process>(start: SweepModel<P::Local>, at: nat, n: nat)
    requires
        at <= n,
        sweep::<P>(start, at).desk.fault is Some,
    ensures
        sweep::<P>(start, n) == sweep::<P>(start, at),
    decreases n,
{
    if at < n {
        lemma_sweep_stops::<P>(start, at, (n - 1) as nat);
    }
}

/// Once a signal has found no target, the delivery goes no further.
pub proof fn lemma_deliver_all_stops<L>(
    processes: Seq<ProcessModel<L>>,
    signals: Seq<(usize, usize)>,
    at: nat,
    n: nat,
)
    requires
        at <= n,
        deliver_all(processes, signals, at).1 is Some,
    ensures
        deliver_all(processes, signals, n) == deliver_all(processes, signals, at),
    decreases n,
{
    if at < n {
        lemma_deliver_all_stops(processes, signals, at, (n - 1) as nat);
    }
}

/// What `n` ticks in a row make of a kernel and a machine: the events of all
/// of them, and the violation that ended the run early, if one did.
pub open spec fn run_model<P: Process>(
    k: KernelModel<P::Local>,
    machine: Seq<MachineOpView>,
    n: nat,
) -> TickModel<P::Local>
    decreases n,
{
    if n == 0 {
        TickModel { kernel: k, machine, trace: Seq::empty(), fault: None }
    } else {
        let before = run_model::<P>(k, machine, (n - 1) as nat);
        if before.fault is Some {
            before
        } else {
            let t = tick_model::<P>(before.kernel, before.machine);
            TickModel {
                kernel: t.kernel,
                machine: t.machine,
                trace: before.trace + t.trace,
                fault: t.fault,
            }
        }
    }
}

/// Once a violation has ended a run, further ticks change nothing.
pub proof fn lemma_run_stops<P: Process>(
    k: KernelModel<P::Local>,
    machine: Seq<MachineOpView>,
    at: nat,
    n: nat,
)
    requires
        at <= n,
        run_model::<P>(k, machine, at).fault is Some,
    ensures
        run_model::<P>(k, machine, n) == run_model::<P>(k, machine, at),
    decreases n,
{
    if at < n {
        lemma_run_stops::<P>(k, machine, at, (n - 1) as nat);
    }
}

} // verus!
