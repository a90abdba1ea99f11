use vstd::prelude::*;
use vstd::multiset::Multiset;
use crate::operating_system::resource::Resource;
use crate::operating_system::resource_list::{holds_kind, first_of_kind};
use crate::real_machine::processor::{MachineOpView, RMProcessor};

verus! {

/// A process as the kernel sees it, with the process's own progress in `local`.
pub struct ProcessModel<L> {
    pub id: usize,
    pub vm: usize,
    pub priority: usize,
    pub state: usize,
    pub held: Seq<Resource>,
    pub local: L,
}

/// What a step may ask of the kernel.
pub enum Outcome<P> {
    /// One instance of a resource kind is needed.
    Request(usize),
    /// A held instance goes back to the pool.
    Release(Resource),
    /// A new process is to be scheduled.
    Spawn(P),
    /// The process with this id, the stepping one, is to leave the schedule.
    Terminate(usize),
    /// The process `target` is to be put into `state`.
    Signal { target: usize, state: usize },
}

/// An `Outcome` over process models.
pub enum OutcomeModel<L> {
    Request(usize),
    Release(Resource),
    Spawn(ProcessModel<L>),
    Terminate(usize),
    Signal { target: usize, state: usize },
}

/// A process after one step, the machine after it, and what the step asked.
pub struct StepModel<L> {
    pub next: ProcessModel<L>,
    pub machine: Seq<MachineOpView>,
    pub outcome: Option<OutcomeModel<L>>,
}

/// The model of what a step handed back.
pub open spec fn outcome_model<P: Process>(out: Option<Outcome<P>>) -> Option<OutcomeModel<P::Local>> {
    match out {
        None => None,
        Some(Outcome::Request(kind)) => Some(OutcomeModel::Request(kind)),
        Some(Outcome::Release(res)) => Some(OutcomeModel::Release(res)),
        Some(Outcome::Spawn(child)) => Some(OutcomeModel::Spawn(child.model())),
        Some(Outcome::Terminate(id)) => Some(OutcomeModel::Terminate(id)),
        Some(Outcome::Signal { target, state }) => Some(OutcomeModel::Signal { target, state }),
    }
}

/// The instances that leave a process with an outcome: the one it releases,
/// or those that a child it spawns starts with.
pub open spec fn handed_over<L>(outcome: Option<OutcomeModel<L>>) -> Multiset<Resource> {
    match outcome {
        Some(OutcomeModel::Release(res)) => Multiset::singleton(res),
        Some(OutcomeModel::Spawn(child)) => child.held.to_multiset(),
        _ => Multiset::empty(),
    }
}

/// What every step must respect: the process keeps its id, a termination
/// names the process itself, and no instance comes from nowhere: what the
/// process holds afterwards and what it hands over were held before.
pub open spec fn step_lawful<L>(m: ProcessModel<L>, r: StepModel<L>) -> bool {
    &&& r.next.id == m.id
    &&& (r.outcome matches Some(OutcomeModel::Terminate(id)) ==> id == m.id)
    &&& r.next.held.to_multiset().add(handed_over(r.outcome)).subset_of(m.held.to_multiset())
}

/// The child that an outcome asks to schedule, if it asks for one.
pub open spec fn spawned_child<L>(outcome: Option<OutcomeModel<L>>) -> Option<ProcessModel<L>> {
    match outcome {
        Some(OutcomeModel::Spawn(child)) => Some(child),
        _ => None,
    }
}

/// A schedulable process.
pub trait Process: Sized {
    /// The process's private progress, which the kernel never reads.
    type Local;

    spec fn model(&self) -> ProcessModel<Self::Local>;

    /// The states in which the process can be stepped.
    spec fn wf(m: ProcessModel<Self::Local>) -> bool;

    /// What one step does to the process and the machine, and what it asks.
    spec fn step_model(m: ProcessModel<Self::Local>, machine: Seq<MachineOpView>) -> StepModel<
        Self::Local,
    >;

    proof fn lemma_step_lawful(m: ProcessModel<Self::Local>, machine: Seq<MachineOpView>)
        requires
            Self::wf(m),
        ensures
            step_lawful(m, Self::step_model(m, machine)),
            Self::wf(Self::step_model(m, machine).next),
            spawned_child(Self::step_model(m, machine).outcome) matches Some(child) ==> Self::wf(
                child,
            ),
    ;

    /// What the kernel does to a process from outside, setting its state and
    /// granting it an instance, keeps it well formed.
    proof fn lemma_kernel_keeps_wf(m: ProcessModel<Self::Local>, state: usize, res: Resource)
        requires
            Self::wf(m),
        ensures
            Self::wf(ProcessModel { state, ..m }),
            Self::wf(ProcessModel { held: m.held.push(res), ..m }),
    ;

    fn get_id(&self) -> (id: usize)
        ensures
            id == self.model().id,
    ;

    fn get_state(&self) -> (state: usize)
        ensures
            state == self.model().state,
    ;

    fn set_state(&mut self, state: usize)
        ensures
            final(self).model() == (ProcessModel { state, ..old(self).model() }),
    ;

    fn get_vm(&self) -> (vm: usize)
        ensures
            vm == self.model().vm,
    ;

    fn set_vm(&mut self, vm: usize)
        ensures
            final(self).model() == (ProcessModel { vm, ..old(self).model() }),
    ;

    fn get_priority(&self) -> (priority: usize)
        ensures
            priority == self.model().priority,
    ;

    /// Takes over a granted instance.
    fn add_resource(&mut self, res: Resource)
        ensures
            final(self).model() == (ProcessModel {
                held: old(self).model().held.push(res),
                ..old(self).model()
            }),
    ;

    /// Gives up the oldest held instance of `kind`.
    fn take_resource(&mut self, kind: usize) -> (res: Resource)
        requires
            holds_kind(old(self).model().held, kind),
        ensures
            res == old(self).model().held[first_of_kind(old(self).model().held, kind)],
            final(self).model() == (ProcessModel {
                held: old(self).model().held.remove(first_of_kind(old(self).model().held, kind)),
                ..old(self).model()
            }),
    ;

    fn has_resource(&self, kind: usize) -> (has: bool)
        ensures
            has == holds_kind(self.model().held, kind),
    ;

    /// Advances the process by one unit of work.
    fn step(&mut self, rm: &mut RMProcessor) -> (out: Option<Outcome<Self>>)
        requires
            Self::wf(old(self).model()),
        ensures
            final(self).model() == Self::step_model(old(self).model(), old(rm)@).next,
            final(rm)@ == Self::step_model(old(self).model(), old(rm)@).machine,
            Self::step_model(old(self).model(), old(rm)@).outcome == match out {
                None => None::<OutcomeModel<Self::Local>>,
                Some(Outcome::Request(kind)) => Some(OutcomeModel::Request(kind)),
                Some(Outcome::Release(res)) => Some(OutcomeModel::Release(res)),
                Some(Outcome::Spawn(child)) => Some(OutcomeModel::Spawn(child.model())),
                Some(Outcome::Terminate(id)) => Some(OutcomeModel::Terminate(id)),
                Some(Outcome::Signal { target, state }) => Some(
                    OutcomeModel::Signal { target, state },
                ),
            },
    ;
}

} // verus!
