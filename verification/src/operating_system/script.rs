use vstd::prelude::*;
use vstd::multiset::Multiset;
use crate::consts::P_READY;
use crate::operating_system::process::{Outcome, OutcomeModel, Process, ProcessModel, StepModel};
use crate::operating_system::resource::Resource;
use crate::operating_system::resource_list::{
    first_of_kind, holds_kind, lemma_remove_accounts, position_of_kind,
};
use crate::real_machine::processor::{MachineOpView, RMProcessor};

verus! {

/// One line of a script.
#[derive(Clone, Copy, Debug, PartialEq, Eq, Structural)]
pub enum Action {
    /// Work that asks nothing of the kernel.
    Idle,
    /// Wait for an instance of a kind: ask for one at every step until one is
    /// held.
    Acquire(usize),
    /// Give the oldest held instance of a kind back, if one is held.
    Release(usize),
    /// Have a process with this id and priority scheduled; it has no script.
    Spawn { id: usize, priority: usize },
    /// Leave the schedule.
    Exit,
    /// Have the process `target` put into `state`.
    Signal { target: usize, state: usize },
    /// Take a state of one's own accord.
    Enter(usize),
}

/// What a scripted process keeps to itself: its parent, its script and the
/// line it has come to.
pub struct ScriptLocal {
    pub parent_id: usize,
    pub actions: Seq<Action>,
    pub next: usize,
}

/// A process that follows a script, a line at each step, and does nothing
/// once the script has run out.
pub struct Script {
    id: usize,
    parent_id: usize,
    vm: usize,
    state: usize,
    priority: usize,
    resources: Vec<Resource>,
    actions: Vec<Action>,
    next: usize,
}

/// `m` with its script moved on by a line.
pub open spec fn moved_on(m: ProcessModel<ScriptLocal>) -> ProcessModel<ScriptLocal> {
    ProcessModel { local: ScriptLocal { next: (m.local.next + 1) as usize, ..m.local }, ..m }
}

/// The process that a `Spawn` line of the process `parent` asks for.
pub open spec fn child_of(parent: usize, id: usize, priority: usize) -> ProcessModel<ScriptLocal> {
    ProcessModel {
        id,
        vm: 0,
        priority,
        state: P_READY,
        held: Seq::empty(),
        local: ScriptLocal { parent_id: parent, actions: Seq::empty(), next: 0 },
    }
}

impl Script {
    /// A ready process that holds nothing, at the first line of `actions`.
    pub fn new(id: usize, parent_id: usize, priority: usize, actions: Vec<Action>) -> (process:
        Script)
        ensures
            process.model() == (ProcessModel {
                id,
                vm: 0,
                priority,
                state: P_READY,
                held: Seq::<Resource>::empty(),
                local: ScriptLocal { parent_id, actions: actions@, next: 0 },
            }),
            Script::wf(process.model()),
    {
        Script {
            id,
            parent_id,
            vm: 0,
            state: P_READY,
            priority,
            resources: Vec::new(),
            actions,
            next: 0,
        }
    }

    pub fn get_parent_id(&self) -> (parent_id: usize)
        ensures
            parent_id == self.model().local.parent_id,
    {
        self.parent_id
    }

    /// The number of lines that have been carried out.
    pub fn get_section(&self) -> (next: usize)
        ensures
            next == self.model().local.next,
    {
        self.next
    }

    /// The number of instances held.
    pub fn resource_count(&self) -> (count: usize)
        ensures
            count == self.model().held.len(),
    {
        self.resources.len()
    }
}

impl Process for Script {
    type Local = ScriptLocal;

    closed spec fn model(&self) -> ProcessModel<ScriptLocal> {
        ProcessModel {
            id: self.id,
            vm: self.vm,
            priority: self.priority,
            state: self.state,
            held: self.resources@,
            local: ScriptLocal {
                parent_id: self.parent_id,
                actions: self.actions@,
                next: self.next,
            },
        }
    }

    open spec fn wf(m: ProcessModel<ScriptLocal>) -> bool {
        m.local.next <= m.local.actions.len()
    }

    open spec fn step_model(m: ProcessModel<ScriptLocal>, machine: Seq<MachineOpView>) -> StepModel<
        ScriptLocal,
    > {
        if m.local.next >= m.local.actions.len() {
            StepModel { next: m, machine, outcome: None }
        } else {
            match m.local.actions[m.local.next as int] {
                Action::Idle => StepModel { next: moved_on(m), machine, outcome: None },
                Action::Acquire(kind) => if holds_kind(m.held, kind) {
                    StepModel { next: moved_on(m), machine, outcome: None }
                } else {
                    StepModel { next: m, machine, outcome: Some(OutcomeModel::Request(kind)) }
                },
                Action::Release(kind) => if holds_kind(m.held, kind) {
                    StepModel {
                        next: moved_on(
                            ProcessModel { held: m.held.remove(first_of_kind(m.held, kind)), ..m },
                        ),
                        machine,
                        outcome: Some(OutcomeModel::Release(m.held[first_of_kind(m.held, kind)])),
                    }
                } else {
                    StepModel { next: moved_on(m), machine, outcome: None }
                },
                Action::Spawn { id, priority } => StepModel {
                    next: moved_on(m),
                    machine,
                    outcome: Some(OutcomeModel::Spawn(child_of(m.id, id, priority))),
                },
                Action::Exit => StepModel {
                    next: moved_on(m),
                    machine,
                    outcome: Some(OutcomeModel::Terminate(m.id)),
                },
                Action::Signal { target, state } => StepModel {
                    next: moved_on(m),
                    machine,
                    outcome: Some(OutcomeModel::Signal { target, state }),
                },
                Action::Enter(state) => StepModel {
                    next: moved_on(ProcessModel { state, ..m }),
                    machine,
                    outcome: None,
                },
            }
        }
    }

    proof fn lemma_step_lawful(m: ProcessModel<ScriptLocal>, machine: Seq<MachineOpView>) {
        let step = Self::step_model(m, machine);
        let before = m.held.to_multiset();
        let after = step.next.held.to_multiset();
        assert(Seq::<Resource>::empty().to_multiset() =~= Multiset::empty()) by {
            broadcast use vstd::seq_lib::group_to_multiset_ensures;

        }
        if m.local.next < m.local.actions.len() {
            match m.local.actions[m.local.next as int] {
                Action::Release(kind) => {
                    if holds_kind(m.held, kind) {
                        lemma_remove_accounts(m.held, kind);
                    } else {
                        assert(after.add(Multiset::empty()) =~= before);
                    }
                },
                _ => {
                    assert(after.add(Multiset::empty()) =~= before);
                },
            }
        } else {
            assert(after.add(Multiset::empty()) =~= before);
        }
    }

    proof fn lemma_kernel_keeps_wf(m: ProcessModel<ScriptLocal>, state: usize, res: Resource) {
    }

    fn get_id(&self) -> (id: usize) {
        self.id
    }

    fn get_state(&self) -> (state: usize) {
        self.state
    }

    fn set_state(&mut self, state: usize) {
        self.state = state;
    }

    fn get_vm(&self) -> (vm: usize) {
        self.vm
    }

    fn set_vm(&mut self, vm: usize) {
        self.vm = vm;
    }

    fn get_priority(&self) -> (priority: usize) {
        self.priority
    }

    fn add_resource(&mut self, res: Resource) {
        self.resources.push(res);
    }

    fn take_resource(&mut self, kind: usize) -> (res: Resource) {
        let at = position_of_kind(&self.resources, kind);
        self.resources.remove(at)
    }

    fn has_resource(&self, kind: usize) -> (has: bool) {
        position_of_kind(&self.resources, kind) < self.resources.len()
    }

    fn step(&mut self, rm: &mut RMProcessor) -> (out: Option<Outcome<Script>>) {
        if self.next >= self.actions.len() {
            return None;
        }
        let action = self.actions[self.next];
        match action {
            Action::Idle => {
                self.next += 1;
                None
            },
            Action::Acquire(kind) => {
                if self.has_resource(kind) {
                    self.next += 1;
                    None
                } else {
                    Some(Outcome::Request(kind))
                }
            },
            Action::Release(kind) => {
                self.next += 1;
                if self.has_resource(kind) {
                    Some(Outcome::Release(self.take_resource(kind)))
                } else {
                    None
                }
            },
            Action::Spawn { id, priority } => {
                self.next += 1;
                Some(Outcome::Spawn(Script::new(id, self.id, priority, Vec::new())))
            },
            Action::Exit => {
                self.next += 1;
                Some(Outcome::Terminate(self.id))
            },
            Action::Signal { target, state } => {
                self.next += 1;
                Some(Outcome::Signal { target, state })
            },
            Action::Enter(state) => {
                self.next += 1;
                self.state = state;
                None
            },
        }
    }
}

} // verus!
