use vstd::prelude::*;
use vstd::string::*;
use vstd::multiset::Multiset;
use crate::consts::{
    P_BLOCKED, P_BLOCKED_SUSP, P_READY, P_READY_SUSP, P_RUNNING, RES_CHNL, RES_DISK,
    RES_FILE_PACK, RES_FROM_FILEWORK, RES_FROM_INTERRUPT, RES_FROM_USER_INT, RES_INTERRUPT,
    RES_LINE_IN_MEM, RES_S_MEM, RES_TASK_IN_SUPER, RES_TASK_IN_USER, RES_TDAT_SUPER,
    RES_THEAD_SUPER, RES_TPROG_SUPER, RES_U_MEM, RES_USER_INPUT,
};
use crate::operating_system::process::{Outcome, OutcomeModel, Process, ProcessModel, StepModel};
use crate::operating_system::resource::Resource;
use crate::operating_system::resource_list::{
    first_of_kind, holds_kind, lemma_push_keeps_kind,
    lemma_remove_accounts, lemma_remove_keeps_other_kind, position_of_kind,
};
use crate::real_machine::processor::{MachineOpView, RMProcessor};
use crate::text::{append_decimal, decimal_text, parse_decimal, parse_usize};

verus! {

/// The slot of the first virtual machine's variables.
pub const VARS_BASE: usize = 10;

/// What a line printer keeps to itself: its parent and how far it is in its
/// cycle.
pub struct PrintLineLocal {
    pub parent_id: usize,
    pub section: usize,
}

/// A process that prints lines: it waits for a line in memory and for the
/// channel, carries out the line's command, and gives the channel back.
pub struct PrintLine {
    id: usize,
    parent_id: usize,
    vm: usize,
    state: usize,
    section: usize,
    resources: Vec<Resource>,
    priority: usize,
}

/// What the machine is asked when a command is not understood.
pub open spec fn complaint() -> Seq<MachineOpView> {
    seq![MachineOpView::Print("Invalid type for printing!"@)]
}

/// What the machine is asked to run a printing instruction on the variables
/// of the virtual machine `vm`.
pub open spec fn on_vars_of(vm: usize, instruction: MachineOpView) -> Seq<MachineOpView> {
    if vm + VARS_BASE <= usize::MAX {
        seq![
            MachineOpView::LoadVars((vm + VARS_BASE) as usize),
            instruction,
            MachineOpView::StoreVars((vm + VARS_BASE) as usize),
        ]
    } else {
        complaint()
    }
}

/// What the machine is asked for the line `msg`. The first character is the
/// command: `e` prints the rest as it is; `n` and `s` take the rest as the
/// number of a virtual machine and print a number or a string from its
/// variables. Anything else, a number that cannot be read among it, is
/// answered with a complaint.
pub open spec fn print_ops(msg: Seq<char>) -> Seq<MachineOpView> {
    if msg.len() == 0 {
        complaint()
    } else if msg[0] == 'e' {
        seq![MachineOpView::Print(msg.skip(1))]
    } else if msg[0] == 'n' || msg[0] == 's' {
        match parse_decimal(msg.skip(1)) {
            Some(vm) => on_vars_of(
                vm,
                if msg[0] == 'n' {
                    MachineOpView::PrintNumber
                } else {
                    MachineOpView::PrintString
                },
            ),
            None => complaint(),
        }
    } else {
        complaint()
    }
}

/// The name of a process state.
pub open spec fn state_name(state: usize) -> Seq<char> {
    if state == P_READY {
        "P_READY"@
    } else if state == P_RUNNING {
        "P_RUNNING"@
    } else if state == P_BLOCKED {
        "P_BLOCKED"@
    } else if state == P_READY_SUSP {
        "P_READY_SUSP"@
    } else if state == P_BLOCKED_SUSP {
        "P_BLOCKED_SUSP"@
    } else {
        "INVALID STATE"@
    }
}

/// The name of a resource kind.
pub open spec fn kind_name(kind: usize) -> Seq<char> {
    if kind == RES_S_MEM {
        "RES_S_MEM"@
    } else if kind == RES_U_MEM {
        "RES_U_MEM"@
    } else if kind == RES_DISK {
        "RES_DISK"@
    } else if kind == RES_CHNL {
        "RES_CHNL"@
    } else if kind == RES_TASK_IN_SUPER {
        "RES_TASK_IN_SUPER"@
    } else if kind == RES_FROM_USER_INT {
        "RES_FROM_USER_INT"@
    } else if kind == RES_FILE_PACK {
        "RES_FILE_PACK"@
    } else if kind == RES_USER_INPUT {
        "RES_USER_INPUT"@
    } else if kind == RES_LINE_IN_MEM {
        "RES_LINE_IN_MEM"@
    } else if kind == RES_FROM_FILEWORK {
        "RES_FROM_FILEWORK"@
    } else if kind == RES_INTERRUPT {
        "RES_INTERRUPT"@
    } else if kind == RES_FROM_INTERRUPT {
        "RES_FROM_INTERRUPT"@
    } else if kind == RES_THEAD_SUPER {
        "RES_THEAD_SUPER"@
    } else if kind == RES_TPROG_SUPER {
        "RES_TPROG_SUPER"@
    } else if kind == RES_TASK_IN_USER {
        "RES_TASK_IN_USER"@
    } else if kind == RES_TDAT_SUPER {
        "RES_TDAT_SUPER"@
    } else {
        "INVALID RESOURSE"@
    }
}

/// One line for each held instance, oldest first.
pub open spec fn resource_lines(held: Seq<Resource>) -> Seq<char>
    decreases held.len(),
{
    if held.len() == 0 {
        Seq::empty()
    } else {
        resource_lines(held.drop_last()) + "Resource: "@ + kind_name(held.last()@.kind) + "\n"@
    }
}

/// The description of a line printer: its id, its state, its section and
/// what it holds, a line each, and an empty line at the end.
pub open spec fn description(m: ProcessModel<PrintLineLocal>) -> Seq<char> {
    "Process: PrintLine "@ + decimal_text(m.id as nat) + "\n"@ + "Status: "@ + state_name(m.state)
        + "\n"@ + "Section: "@ + decimal_text(m.local.section as nat) + "\n"@ + resource_lines(
        m.held,
    ) + "\n"@
}

/// `m` after it has moved on to `section`.
pub open spec fn at_section(m: ProcessModel<PrintLineLocal>, section: usize) -> ProcessModel<
    PrintLineLocal,
> {
    ProcessModel { local: PrintLineLocal { section, ..m.local }, ..m }
}

/// `m` without its oldest instance of `kind`.
pub open spec fn without<L>(m: ProcessModel<L>, kind: usize) -> ProcessModel<L> {
    ProcessModel { held: m.held.remove(first_of_kind(m.held, kind)), ..m }
}

fn state_text(state: usize) -> (text: &'static str)
    ensures
        text@ == state_name(state),
{
    if state == P_READY {
        "P_READY"
    } else if state == P_RUNNING {
        "P_RUNNING"
    } else if state == P_BLOCKED {
        "P_BLOCKED"
    } else if state == P_READY_SUSP {
        "P_READY_SUSP"
    } else if state == P_BLOCKED_SUSP {
        "P_BLOCKED_SUSP"
    } else {
        "INVALID STATE"
    }
}

fn kind_text(kind: usize) -> (text: &'static str)
    ensures
        text@ == kind_name(kind),
{
    if kind == RES_S_MEM {
        "RES_S_MEM"
    } else if kind == RES_U_MEM {
        "RES_U_MEM"
    } else if kind == RES_DISK {
        "RES_DISK"
    } else if kind == RES_CHNL {
        "RES_CHNL"
    } else if kind == RES_TASK_IN_SUPER {
        "RES_TASK_IN_SUPER"
    } else if kind == RES_FROM_USER_INT {
        "RES_FROM_USER_INT"
    } else if kind == RES_FILE_PACK {
        "RES_FILE_PACK"
    } else if kind == RES_USER_INPUT {
        "RES_USER_INPUT"
    } else if kind == RES_LINE_IN_MEM {
        "RES_LINE_IN_MEM"
    } else if kind == RES_FROM_FILEWORK {
        "RES_FROM_FILEWORK"
    } else if kind == RES_INTERRUPT {
        "RES_INTERRUPT"
    } else if kind == RES_FROM_INTERRUPT {
        "RES_FROM_INTERRUPT"
    } else if kind == RES_THEAD_SUPER {
        "RES_THEAD_SUPER"
    } else if kind == RES_TPROG_SUPER {
        "RES_TPROG_SUPER"
    } else if kind == RES_TASK_IN_USER {
        "RES_TASK_IN_USER"
    } else if kind == RES_TDAT_SUPER {
        "RES_TDAT_SUPER"
    } else {
        "INVALID RESOURSE"
    }
}

impl PrintLine {
    /// A ready line printer at the start of its cycle, of priority 3, that
    /// holds nothing.
    pub fn new(id: usize, parent_id: usize, vm: usize) -> (process: PrintLine)
        ensures
            process.model() == (ProcessModel {
                id,
                vm,
                priority: 3,
                state: P_READY,
                held: Seq::<Resource>::empty(),
                local: PrintLineLocal { parent_id, section: 0 },
            }),
            PrintLine::wf(process.model()),
    {
        PrintLine {
            id,
            parent_id,
            vm,
            state: P_READY,
            section: 0,
            resources: Vec::new(),
            priority: 3,
        }
    }

    pub fn get_parent_id(&self) -> (parent_id: usize)
        ensures
            parent_id == self.model().local.parent_id,
    {
        self.parent_id
    }

    pub fn get_section(&self) -> (section: usize)
        ensures
            section == self.model().local.section,
    {
        self.section
    }

    /// Describes the process in lines of text.
    pub fn print(&self) -> (text: String)
        ensures
            text@ == description(self.model()),
    {
        let mut text = String::from_str("Process: PrintLine ");
        append_decimal(&mut text, self.id);
        text.append("\n");
        text.append("Status: ");
        text.append(state_text(self.state));
        text.append("\n");
        text.append("Section: ");
        append_decimal(&mut text, self.section);
        text.append("\n");
        let ghost head = text@;
        let mut i: usize = 0;
        assert(self.resources@.take(0) =~= Seq::empty());
        assert(text@ =~= head + resource_lines(self.resources@.take(0)));
        while i < self.resources.len()
            invariant
                0 <= i <= self.resources.len(),
                text@ == head + resource_lines(self.resources@.take(i as int)),
            decreases self.resources.len() - i,
        {
            let ghost before = text@;
            text.append("Resource: ");
            text.append(kind_text(self.resources[i].get_type()));
            text.append("\n");
            proof {
                let upto = self.resources@.take(i + 1);
                assert(upto.drop_last() =~= self.resources@.take(i as int));
                assert(upto.last() == self.resources@[i as int]);
                assert(text@ =~= head + resource_lines(upto));
            }
            i += 1;
        }
        assert(self.resources@.take(i as int) =~= self.resources@);
        text.append("\n");
        assert(text@ =~= description(self.model()));
        text
    }

    /// Takes the oldest line in memory, which is used up, and asks the
    /// machine for what its command says.
    fn print_msg(&mut self, rm: &mut RMProcessor)
        requires
            holds_kind(old(self).model().held, RES_LINE_IN_MEM),
        ensures
            final(self).model() == without(old(self).model(), RES_LINE_IN_MEM),
            final(rm)@ == old(rm)@ + print_ops(
                old(self).model().held[first_of_kind(old(self).model().held, RES_LINE_IN_MEM)]@.msg,
            ),
    {
        let message = self.take_resource(RES_LINE_IN_MEM).get_msg();
        let text = message.as_str();
        let len = text.unicode_len();
        if len == 0 {
            rm.print_line(String::from_str("Invalid type for printing!"));
            assert(rm@ =~= old(rm)@ + complaint());
            return ;
        }
        let letter = text.get_char(0);
        let printing = text.substring_char(1, len);
        assert(printing@ =~= text@.skip(1));
        if letter == 'e' {
            rm.print_line(String::from_str(printing));
            assert(rm@ =~= old(rm)@ + print_ops(text@));
        } else if letter == 'n' || letter == 's' {
            let slot = match parse_usize(printing) {
                Some(vm) => vm.checked_add(VARS_BASE),
                None => None,
            };
            match slot {
                Some(slot) => {
                    rm.get_vars(slot);
                    if letter == 'n' {
                        rm.process_prtn();
                    } else {
                        rm.process_prts();
                    }
                    rm.set_vars(slot);
                },
                None => {
                    rm.print_line(String::from_str("Invalid type for printing!"));
                },
            }
            assert(rm@ =~= old(rm)@ + print_ops(text@));
        } else {
            rm.print_line(String::from_str("Invalid type for printing!"));
            assert(rm@ =~= old(rm)@ + complaint());
        }
    }
}

impl Process for PrintLine {
    type Local = PrintLineLocal;

    closed spec fn model(&self) -> ProcessModel<PrintLineLocal> {
        ProcessModel {
            id: self.id,
            vm: self.vm,
            priority: self.priority,
            state: self.state,
            held: self.resources@,
            local: PrintLineLocal { parent_id: self.parent_id, section: self.section },
        }
    }

    /// A line printer past the start of its cycle holds what it waited for:
    /// the line in sections 1 and 2, the channel in sections 2 and 3.
    open spec fn wf(m: ProcessModel<PrintLineLocal>) -> bool {
        &&& m.local.section <= 3
        &&& (m.local.section == 1 || m.local.section == 2 ==> holds_kind(m.held, RES_LINE_IN_MEM))
        &&& (m.local.section == 2 || m.local.section == 3 ==> holds_kind(m.held, RES_CHNL))
    }

    /// Section 0 waits for a line in memory and section 1 for the channel:
    /// each asks for what is missing, or moves on as a ready process.
    /// Section 2 carries out the line's command, section 3 gives the channel
    /// back and starts the cycle again.
    open spec fn step_model(m: ProcessModel<PrintLineLocal>, machine: Seq<MachineOpView>)
        -> StepModel<PrintLineLocal> {
        if m.local.section == 0 || m.local.section == 1 {
            let kind = if m.local.section == 0 {
                RES_LINE_IN_MEM
            } else {
                RES_CHNL
            };
            if holds_kind(m.held, kind) {
                StepModel {
                    next: ProcessModel {
                        state: P_READY,
                        ..at_section(m, (m.local.section + 1) as usize)
                    },
                    machine,
                    outcome: None,
                }
            } else {
                StepModel { next: m, machine, outcome: Some(OutcomeModel::Request(kind)) }
            }
        } else if m.local.section == 2 {
            StepModel {
                next: at_section(without(m, RES_LINE_IN_MEM), 3),
                machine: machine + print_ops(
                    m.held[first_of_kind(m.held, RES_LINE_IN_MEM)]@.msg,
                ),
                outcome: None,
            }
        } else {
            StepModel {
                next: at_section(without(m, RES_CHNL), 0),
                machine,
                outcome: Some(OutcomeModel::Release(m.held[first_of_kind(m.held, RES_CHNL)])),
            }
        }
    }

    proof fn lemma_step_lawful(m: ProcessModel<PrintLineLocal>, machine: Seq<MachineOpView>) {
        let step = Self::step_model(m, machine);
        let before = m.held.to_multiset();
        let after = step.next.held.to_multiset();
        if m.local.section == 2 {
            lemma_remove_keeps_other_kind(m.held, RES_LINE_IN_MEM, RES_CHNL);
            lemma_remove_accounts(m.held, RES_LINE_IN_MEM);
            assert(after.add(Multiset::empty()) =~= after);
        } else if m.local.section == 3 {
            lemma_remove_accounts(m.held, RES_CHNL);
        } else {
            assert(after.add(Multiset::empty()) =~= before);
        }
    }

    proof fn lemma_kernel_keeps_wf(m: ProcessModel<PrintLineLocal>, state: usize, res: Resource) {
        if m.local.section == 1 || m.local.section == 2 {
            lemma_push_keeps_kind(m.held, res, RES_LINE_IN_MEM);
        }
        if m.local.section == 2 || m.local.section == 3 {
            lemma_push_keeps_kind(m.held, res, RES_CHNL);
        }
    }

    fn get_id(&self) -> (id: usize) {
        self.id
    }

    fn get_state(&self) -> (state: usize) {
        self.state
    }

    fn set_state(&mut self, state: usize) {
        self.state = state;
    }

    fn get_vm(&self) -> (vm: usize) {
        self.vm
    }

    fn set_vm(&mut self, vm: usize) {
        self.vm = vm;
    }

    fn get_priority(&self) -> (priority: usize) {
        self.priority
    }

    fn add_resource(&mut self, res: Resource) {
        self.resources.push(res);
    }

    fn take_resource(&mut self, kind: usize) -> (res: Resource) {
        let at = position_of_kind(&self.resources, kind);
        self.resources.remove(at)
    }

    fn has_resource(&self, kind: usize) -> (has: bool) {
        position_of_kind(&self.resources, kind) < self.resources.len()
    }

    fn step(&mut self, rm: &mut RMProcessor) -> (out: Option<Outcome<PrintLine>>) {
        if self.section == 0 {
            if self.has_resource(RES_LINE_IN_MEM) {
                self.section += 1;
                self.state = P_READY;
                None
            } else {
                Some(Outcome::Request(RES_LINE_IN_MEM))
            }
        } else if self.section == 1 {
            if self.has_resource(RES_CHNL) {
                self.section += 1;
                self.state = P_READY;
                None
            } else {
                Some(Outcome::Request(RES_CHNL))
            }
        } else if self.section == 2 {
            self.print_msg(rm);
            self.section += 1;
            None
        } else {
            self.section = 0;
            Some(Outcome::Release(self.take_resource(RES_CHNL)))
        }
    }
}

} // verus!
