use vstd::prelude::*;
use crate::consts::{P_BLOCKED, P_READY};
use crate::operating_system::order::{
    lemma_insert_by_priority_at, lemma_sort_by_priority_keeps, sort_by_priority,
};
use crate::operating_system::process::{outcome_model, Outcome, Process, ProcessModel};
use crate::operating_system::resource::Resource;
use crate::operating_system::resource_list::ResourceList;
use crate::operating_system::schedule::{
    advance, all_wf, clear_desk, deliver, deliver_all, first_signal_for, first_with_id, grant,
    has_id, is_for, lemma_deliver_all_stops, lemma_run_stops, lemma_sweep_stops, run_blocked,
    run_model, run_ready, settle, stays, survivors, sweep, tick_model, visit, DeskModel,
    KernelModel, SweepModel, TickModel, VisitModel,
};
use crate::operating_system::search::lemma_first_where_is;
use crate::operating_system::trace::{KernelError, TraceEvent};
use crate::real_machine::processor::RMProcessor;

verus! {

/// The models of a list of processes, in order.
pub open spec fn models<P: Process>(processes: Seq<P>) -> Seq<ProcessModel<P::Local>> {
    Seq::new(processes.len(), |i: int| processes[i].model())
}

/// Puts `processes` in ascending priority; processes of one priority keep
/// their order.
fn sort_processes<P: Process>(processes: &mut Vec<P>)
    ensures
        models(final(processes)@) == sort_by_priority(models(old(processes)@)),
{
    let ghost start = models(processes@);
    let mut i: usize = 0;
    assert(start.take(0) =~= Seq::empty());
    assert(models(processes@).take(0) =~= sort_by_priority(start.take(0)));
    while i < processes.len()
        invariant
            0 <= i <= processes.len(),
            models(processes@).len() == start.len(),
            models(processes@).take(i as int) == sort_by_priority(start.take(i as int)),
            models(processes@).skip(i as int) == start.skip(i as int),
        decreases processes.len() - i,
    {
        let ghost before = models(processes@);
        let priority = processes[i].get_priority();
        let mut j: usize = i;
        while j > 0 && processes[j - 1].get_priority() > priority
            invariant
                0 <= j <= i < processes.len(),
                forall|k: int| j <= k < i ==> (#[trigger] processes@[k]).model().priority > priority,
            decreases j,
        {
            j -= 1;
        }
        let process = processes.remove(i);
        processes.insert(j, process);
        proof {
            let sorted = before.take(i as int);
            let p = before[i as int];
            assert(p == start.skip(i as int)[0]);
            assert(start.take(i + 1).drop_last() =~= start.take(i as int));
            assert forall|k: int| j <= k < sorted.len() implies (#[trigger] sorted[k]).priority
                > p.priority by {
                assert(sorted[k] == before[k]);
            }
            lemma_insert_by_priority_at(sorted, p, j as int);
            assert(models(processes@).take(i + 1) =~= sorted.insert(j as int, p));
            let rest = models(processes@).skip(i + 1);
            assert forall|k: int| 0 <= k < rest.len() implies #[trigger] rest[k] == start.skip(
                i + 1,
            )[k] by {
                assert(start.skip(i + 1)[k] == start.skip(i as int)[k + 1]);
                assert(before.skip(i as int)[k + 1] == before[i + 1 + k]);
            }
            assert(rest =~= start.skip(i + 1));
        }
        i += 1;
    }
    assert(models(processes@).take(i as int) =~= models(processes@));
    assert(start.take(i as int) =~= start);
}

/// What the kernel keeps beside the process list while it sweeps it.
struct Desk<P: Process> {
    pool: ResourceList,
    machine: RMProcessor,
    spawned: Vec<P>,
    doomed: Vec<usize>,
    signals: Vec<(usize, usize)>,
    trace: Vec<TraceEvent>,
    fault: Option<KernelError>,
}

impl<P: Process> View for Desk<P> {
    type V = DeskModel<P::Local>;

    closed spec fn view(&self) -> DeskModel<P::Local> {
        DeskModel {
            pool: self.pool@,
            machine: self.machine@,
            spawned: models(self.spawned@),
            doomed: self.doomed@,
            signals: self.signals@,
            trace: self.trace@,
            fault: self.fault,
        }
    }
}

/// A process and a desk as one value.
spec fn seen<P: Process>(process: P, desk: Desk<P>) -> VisitModel<P::Local> {
    VisitModel { process: process.model(), desk: desk@ }
}

fn contains_id(ids: &Vec<usize>, id: usize) -> (found: bool)
    ensures
        found == ids@.contains(id),
{
    let mut i: usize = 0;
    while i < ids.len()
        invariant
            0 <= i <= ids.len(),
            forall|j: int| 0 <= j < i ==> ids@[j] != id,
        decreases ids.len() - i,
    {
        if ids[i] == id {
            return true;
        }
        i += 1;
    }
    false
}

fn find_signal(signals: &Vec<(usize, usize)>, id: usize) -> (at: usize)
    ensures
        at == first_signal_for(signals@, id),
        at <= signals@.len(),
{
    let mut i: usize = 0;
    while i < signals.len() && signals[i].0 != id
        invariant
            0 <= i <= signals.len(),
            forall|j: int| 0 <= j < i ==> (#[trigger] signals@[j]).0 != id,
        decreases signals.len() - i,
    {
        i += 1;
    }
    proof {
        lemma_first_where_is(signals@, is_for(id), i as int);
    }
    i
}

fn find_process<P: Process>(processes: &Vec<P>, id: usize) -> (at: usize)
    ensures
        at == first_with_id(models(processes@), id),
        at <= processes@.len(),
{
    let mut i: usize = 0;
    while i < processes.len() && processes[i].get_id() != id
        invariant
            0 <= i <= processes.len(),
            forall|j: int| 0 <= j < i ==> (#[trigger] models(processes@)[j]).id != id,
        decreases processes.len() - i,
    {
        i += 1;
    }
    proof {
        lemma_first_where_is(models(processes@), has_id(id), i as int);
    }
    i
}

fn deliver_signal<P: Process>(process: &mut P, desk: &mut Desk<P>)
    requires
        P::wf(old(process).model()),
        all_wf::<P>(old(desk)@.spawned),
    ensures
        seen(*final(process), *final(desk)) == deliver(old(process).model(), old(desk)@),
        P::wf(final(process).model()),
        all_wf::<P>(final(desk)@.spawned),
{
    let at = find_signal(&desk.signals, process.get_id());
    if at < desk.signals.len() {
        let signal = desk.signals.remove(at);
        proof {
            P::lemma_kernel_keeps_wf(process.model(), signal.1, arbitrary());
        }
        process.set_state(signal.1);
    }
}

fn grant_request<P: Process>(process: &mut P, desk: &mut Desk<P>, kind: usize)
    requires
        P::wf(old(process).model()),
        all_wf::<P>(old(desk)@.spawned),
    ensures
        seen(*final(process), *final(desk)) == grant(old(process).model(), old(desk)@, kind),
        P::wf(final(process).model()),
        all_wf::<P>(final(desk)@.spawned),
{
    let got = desk.pool.take(kind, process.get_id());
    desk.trace.push(TraceEvent::Request { kind, id: process.get_id(), granted: got.is_some() });
    if let Some(res) = got {
        proof {
            P::lemma_kernel_keeps_wf(process.model(), 0, res);
        }
        process.add_resource(res);
    }
}

fn step_once<P: Process>(process: &mut P, desk: &mut Desk<P>) -> (out: Option<Outcome<P>>)
    requires
        P::wf(old(process).model()),
        all_wf::<P>(old(desk)@.spawned),
    ensures
        seen(*final(process), *final(desk)) == advance::<P>(old(process).model(), old(desk)@),
        outcome_model(out) == P::step_model(old(process).model(), old(desk)@.machine).outcome,
        P::wf(final(process).model()),
        all_wf::<P>(final(desk)@.spawned),
        out matches Some(Outcome::Spawn(child)) ==> P::wf(child.model()),
{
    proof {
        P::lemma_step_lawful(process.model(), desk@.machine);
    }
    process.step(&mut desk.machine)
}

fn settle_outcome<P: Process>(process: &mut P, desk: &mut Desk<P>, outcome: Outcome<P>)
    requires
        P::wf(old(process).model()),
        all_wf::<P>(old(desk)@.spawned),
        outcome matches Outcome::Spawn(child) ==> P::wf(child.model()),
    ensures
        seen(*final(process), *final(desk)) == settle::<P>(
            old(process).model(),
            old(desk)@,
            outcome_model(Some(outcome))->Some_0,
        ),
        P::wf(final(process).model()),
        all_wf::<P>(final(desk)@.spawned),
{
    match outcome {
        Outcome::Request(kind) => {
            grant_request(process, desk, kind);
        },
        Outcome::Release(res) => {
            desk.pool.add(res);
            let _ = step_once(process, desk);
        },
        Outcome::Spawn(child) => {
            desk.spawned.push(child);
            assert(models(desk.spawned@) =~= models(old(desk).spawned@).push(child.model()));
        },
        Outcome::Terminate(id) => {
            desk.doomed.push(id);
            desk.trace.push(TraceEvent::Removal { id });
        },
        Outcome::Signal { target, state } => {
            desk.signals.push((target, state));
        },
    }
}

fn visit_ready<P: Process>(process: &mut P, desk: &mut Desk<P>)
    requires
        P::wf(old(process).model()),
        all_wf::<P>(old(desk)@.spawned),
    ensures
        seen(*final(process), *final(desk)) == run_ready::<P>(old(process).model(), old(desk)@),
        P::wf(final(process).model()),
        all_wf::<P>(final(desk)@.spawned),
{
    match step_once(process, desk) {
        Some(outcome) => settle_outcome(process, desk, outcome),
        None => {
            match step_once(process, desk) {
                Some(outcome) => settle_outcome(process, desk, outcome),
                None => {},
            }
        },
    }
}

fn visit_blocked<P: Process>(process: &mut P, desk: &mut Desk<P>)
    requires
        P::wf(old(process).model()),
        all_wf::<P>(old(desk)@.spawned),
    ensures
        seen(*final(process), *final(desk)) == run_blocked::<P>(old(process).model(), old(desk)@),
        P::wf(final(process).model()),
        all_wf::<P>(final(desk)@.spawned),
{
    let id = process.get_id();
    match step_once(process, desk) {
        None => {},
        Some(Outcome::Request(kind)) => grant_request(process, desk, kind),
        Some(_) => {
            desk.fault = Some(KernelError::BlockedOutcome { id });
        },
    }
}

fn visit_process<P: Process>(process: &mut P, desk: &mut Desk<P>)
    requires
        P::wf(old(process).model()),
        all_wf::<P>(old(desk)@.spawned),
    ensures
        seen(*final(process), *final(desk)) == visit::<P>(old(process).model(), old(desk)@),
        P::wf(final(process).model()),
        all_wf::<P>(final(desk)@.spawned),
{
    if contains_id(&desk.doomed, process.get_id()) {
        return ;
    }
    deliver_signal(process, desk);
    if process.get_state() == P_BLOCKED {
        visit_blocked(process, desk);
    }
    if desk.fault.is_none() && process.get_state() == P_READY {
        visit_ready(process, desk);
    }
}

/// Visits every process of the list once, in order, until a violation stops
/// the sweep.
fn sweep_processes<P: Process>(processes: &mut Vec<P>, desk: &mut Desk<P>)
    requires
        all_wf::<P>(models(old(processes)@)),
        all_wf::<P>(old(desk)@.spawned),
        old(desk)@.fault is None,
    ensures
        all_wf::<P>(final(desk)@.spawned),
        (SweepModel { processes: models(final(processes)@), desk: final(desk)@ }) == sweep::<P>(
            SweepModel { processes: models(old(processes)@), desk: old(desk)@ },
            old(processes)@.len() as nat,
        ),
        all_wf::<P>(models(final(processes)@)),
        final(processes)@.len() == old(processes)@.len(),
{
    let ghost start = SweepModel { processes: models(processes@), desk: desk@ };
    let mut i: usize = 0;
    while i < processes.len() && desk.fault.is_none()
        invariant
            0 <= i <= processes.len(),
            processes@.len() == start.processes.len(),
            (SweepModel { processes: models(processes@), desk: desk@ }) == sweep::<P>(
                start,
                i as nat,
            ),
            all_wf::<P>(models(processes@)),
            all_wf::<P>(desk@.spawned),
        decreases processes.len() - i,
    {
        let ghost before = models(processes@);
        assert(P::wf(before[i as int]));
        visit_process(&mut processes[i], desk);
        proof {
            assert(models(processes@) =~= before.update(i as int, processes@[i as int].model()));
            assert forall|k: int| 0 <= k < processes@.len() implies P::wf(
                #[trigger] models(processes@)[k],
            ) by {
                if k != i {
                    assert(models(processes@)[k] == before[k]);
                }
            }
        }
        i += 1;
    }
    proof {
        if i < processes.len() {
            lemma_sweep_stops::<P>(start, i as nat, start.processes.len());
        }
    }
}

/// Removes the processes whose id is in `doomed`.
fn remove_doomed<P: Process>(processes: &mut Vec<P>, doomed: &Vec<usize>)
    requires
        all_wf::<P>(models(old(processes)@)),
    ensures
        models(final(processes)@) == survivors(models(old(processes)@), doomed@),
        all_wf::<P>(models(final(processes)@)),
{
    let ghost start = models(processes@);
    let ghost mut seen: int = 0;
    let mut i: usize = 0;
    assert(start.take(0).filter(stays(doomed@)) =~= Seq::empty());
    assert(models(processes@) =~= Seq::empty() + start.skip(0));
    while i < processes.len()
        invariant
            0 <= i <= processes.len(),
            0 <= seen <= start.len(),
            i == survivors(start.take(seen), doomed@).len(),
            processes@.len() - i == start.len() - seen,
            models(processes@) == survivors(start.take(seen), doomed@) + start.skip(seen),
            all_wf::<P>(models(processes@)),
        decreases processes.len() - i,
    {
        let ghost before = models(processes@);
        let ghost kept = survivors(start.take(seen), doomed@);
        proof {
            assert(before[i as int] == start.skip(seen)[0]);
            assert(start.take(seen + 1) =~= start.take(seen).push(start[seen]));
            start.take(seen).lemma_filter_push(start[seen], stays(doomed@));
        }
        if contains_id(doomed, processes[i].get_id()) {
            let _ = processes.remove(i);
            proof {
                assert(models(processes@) =~= before.remove(i as int));
                assert(before.remove(i as int) =~= kept + start.skip(seen + 1));
            }
        } else {
            proof {
                assert(before =~= kept.push(start[seen]) + start.skip(seen + 1));
            }
            i += 1;
        }
        proof {
            seen = seen + 1;
            assert forall|k: int| 0 <= k < processes@.len() implies P::wf(
                #[trigger] models(processes@)[k],
            ) by {
                if k < i {
                    assert(models(processes@)[k] == before[k]);
                } else {
                    assert(models(processes@)[k] == start.skip(seen)[k - i]);
                    assert(start.skip(seen)[k - i] == start[seen + k - i]);
                }
            }
        }
    }
    assert(start.take(seen) =~= start);
    assert(models(processes@) =~= survivors(start, doomed@));
}

/// Delivers `signals` in order, each to the first process with the target's
/// id, until one finds no such process.
fn deliver_pending<P: Process>(processes: &mut Vec<P>, signals: &Vec<(usize, usize)>) -> (fault:
    Option<KernelError>)
    requires
        all_wf::<P>(models(old(processes)@)),
    ensures
        (models(final(processes)@), fault) == deliver_all(
            models(old(processes)@),
            signals@,
            signals@.len(),
        ),
        all_wf::<P>(models(final(processes)@)),
{
    let ghost start = models(processes@);
    let mut fault: Option<KernelError> = None;
    let mut n: usize = 0;
    while n < signals.len() && fault.is_none()
        invariant
            0 <= n <= signals.len(),
            (models(processes@), fault) == deliver_all(start, signals@, n as nat),
            all_wf::<P>(models(processes@)),
        decreases signals.len() - n,
    {
        let ghost before = models(processes@);
        let target = signals[n].0;
        let state = signals[n].1;
        let at = find_process(processes, target);
        if at < processes.len() {
            proof {
                P::lemma_kernel_keeps_wf(before[at as int], state, arbitrary());
            }
            processes[at].set_state(state);
            proof {
                assert(models(processes@) =~= before.update(
                    at as int,
                    ProcessModel { state, ..before[at as int] },
                ));
                assert forall|k: int| 0 <= k < processes@.len() implies P::wf(
                    #[trigger] models(processes@)[k],
                ) by {
                    if k != at {
                        assert(models(processes@)[k] == before[k]);
                    }
                }
            }
        } else {
            fault = Some(KernelError::UnknownTarget { id: target });
        }
        n += 1;
    }
    proof {
        if n < signals.len() {
            lemma_deliver_all_stops(start, signals@, n as nat, signals@.len());
        }
    }
    fault
}

pub struct Kernel<P: Process> {
    process_list: Vec<P>,
    resources: ResourceList,
}

impl<P: Process> View for Kernel<P> {
    type V = KernelModel<P::Local>;

    closed spec fn view(&self) -> KernelModel<P::Local> {
        KernelModel { processes: models(self.process_list@), pool: self.resources@ }
    }
}

impl<P: Process> Kernel<P> {
    /// Every scheduled process can be stepped.
    pub open spec fn inv(&self) -> bool {
        all_wf::<P>(self@.processes)
    }

    /// A kernel with no process and no resource.
    pub fn new() -> (kernel: Kernel<P>)
        ensures
            kernel@ == (KernelModel::<P::Local> { processes: Seq::empty(), pool: Seq::empty() }),
    {
        let kernel = Kernel { process_list: Vec::new(), resources: ResourceList::new() };
        assert(kernel@.processes =~= Seq::empty());
        kernel
    }

    /// Runs one tick: the processes are put in priority order and visited
    /// once each, and what they reported is acted on. A violation abandons
    /// the tick and is returned; otherwise the tick's events are.
    pub fn tick(&mut self, rm: &mut RMProcessor) -> (res: Result<Vec<TraceEvent>, KernelError>)
        requires
            old(self).inv(),
        ensures
            final(self).inv(),
            final(self)@ == tick_model::<P>(old(self)@, old(rm)@).kernel,
            final(rm)@ == tick_model::<P>(old(self)@, old(rm)@).machine,
            match res {
                Ok(trace) => tick_model::<P>(old(self)@, old(rm)@).fault is None && trace@
                    == tick_model::<P>(old(self)@, old(rm)@).trace,
                Err(fault) => tick_model::<P>(old(self)@, old(rm)@).fault == Some(fault),
            },
    {
        sort_processes(&mut self.process_list);
        proof {
            lemma_sort_by_priority_keeps(old(self)@.processes, |p: ProcessModel<P::Local>| P::wf(p));
        }
        let mut desk: Desk<P> = Desk {
            pool: ResourceList::new(),
            machine: RMProcessor::new(),
            spawned: Vec::new(),
            doomed: Vec::new(),
            signals: Vec::new(),
            trace: Vec::new(),
            fault: None,
        };
        std::mem::swap(&mut desk.pool, &mut self.resources);
        std::mem::swap(&mut desk.machine, rm);
        assert(desk@ =~= clear_desk::<P::Local>(old(self)@.pool, old(rm)@)) by {
            assert(models(desk.spawned@) =~= Seq::empty());
        }
        sweep_processes(&mut self.process_list, &mut desk);
        let ghost swept = SweepModel { processes: models(self.process_list@), desk: desk@ };
        let fault = match desk.fault {
            Some(fault) => Some(fault),
            None => {
                self.process_list.append(&mut desk.spawned);
                assert(models(self.process_list@) =~= swept.processes + swept.desk.spawned);
                remove_doomed(&mut self.process_list, &desk.doomed);
                deliver_pending(&mut self.process_list, &desk.signals)
            },
        };
        std::mem::swap(&mut desk.pool, &mut self.resources);
        std::mem::swap(&mut desk.machine, rm);
        match fault {
            Some(fault) => Err(fault),
            None => Ok(desk.trace),
        }
    }

    /// Schedules `process` at the end of the list.
    pub fn add_process(&mut self, process: P)
        requires
            old(self).inv(),
            P::wf(process.model()),
        ensures
            final(self).inv(),
            final(self)@ == (KernelModel {
                processes: old(self)@.processes.push(process.model()),
                ..old(self)@
            }),
    {
        self.process_list.push(process);
        assert(models(self.process_list@) =~= models(old(self).process_list@).push(
            process.model(),
        ));
    }

    /// Puts `res` among the free instances.
    pub fn add_resource(&mut self, res: Resource)
        ensures
            final(self)@ == (KernelModel { pool: old(self)@.pool.push(res), ..old(self)@ }),
            old(self).inv() ==> final(self).inv(),
    {
        self.resources.add(res);
    }

    /// The number of scheduled processes.
    pub fn process_count(&self) -> (count: usize)
        ensures
            count == self@.processes.len(),
    {
        self.process_list.len()
    }

    /// The process at the position `at` of the list.
    pub fn process_at(&self, at: usize) -> (process: &P)
        requires
            at < self@.processes.len(),
        ensures
            process.model() == self@.processes[at as int],
    {
        &self.process_list[at]
    }

    /// The first process of the list with the id `id`.
    pub fn get_process(&self, id: usize) -> (process: Option<&P>)
        ensures
            match process {
                Some(process) => first_with_id(self@.processes, id) < self@.processes.len()
                    && process.model() == self@.processes[first_with_id(self@.processes, id)],
                None => first_with_id(self@.processes, id) == self@.processes.len(),
            },
    {
        let at = find_process(&self.process_list, id);
        if at < self.process_list.len() {
            Some(&self.process_list[at])
        } else {
            None
        }
    }

    /// The free instances.
    pub fn get_resources(&self) -> (pool: &ResourceList)
        ensures
            pool@ == self@.pool,
    {
        &self.resources
    }

    /// Schedules `bootstrap` and runs `ticks` ticks, or fewer where a
    /// violation ends the run; the events of all ticks are returned, or the
    /// violation.
    pub fn planner(&mut self, rm: &mut RMProcessor, bootstrap: P, ticks: usize) -> (res: Result<
        Vec<TraceEvent>,
        KernelError,
    >)
        requires
            old(self).inv(),
            P::wf(bootstrap.model()),
        ensures
            final(self).inv(),
            ({
                let start = KernelModel {
                    processes: old(self)@.processes.push(bootstrap.model()),
                    ..old(self)@
                };
                let run = run_model::<P>(start, old(rm)@, ticks as nat);
                &&& final(self)@ == run.kernel
                &&& final(rm)@ == run.machine
                &&& match res {
                    Ok(trace) => run.fault is None && trace@ == run.trace,
                    Err(fault) => run.fault == Some(fault),
                }
            }),
    {
        self.add_process(bootstrap);
        let ghost start = self@;
        let ghost machine = rm@;
        let mut all: Vec<TraceEvent> = Vec::new();
        let mut n: usize = 0;
        while n < ticks
            invariant
                0 <= n <= ticks,
                self.inv(),
                machine == old(rm)@,
                start == (KernelModel {
                    processes: old(self)@.processes.push(bootstrap.model()),
                    ..old(self)@
                }),
                run_model::<P>(start, machine, n as nat) == (TickModel {
                    kernel: self@,
                    machine: rm@,
                    trace: all@,
                    fault: None,
                }),
            decreases ticks - n,
        {
            let ghost t = tick_model::<P>(self@, rm@);
            match self.tick(rm) {
                Ok(mut trace) => {
                    all.append(&mut trace);
                },
                Err(fault) => {
                    proof {
                        assert(run_model::<P>(start, machine, (n + 1) as nat).fault == t.fault);
                        lemma_run_stops::<P>(start, machine, (n + 1) as nat, ticks as nat);
                    }
                    return Err(fault);
                },
            }
            n += 1;
        }
        Ok(all)
    }
}

} // verus!
