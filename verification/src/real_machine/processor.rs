use vstd::prelude::*;

verus! {

/// One operation asked of the real machine.
#[derive(Debug, PartialEq, Eq)]
pub enum MachineOp {
    /// Write a line of text to the console.
    Print(String),
    /// Load the variables kept in a memory slot into the registers.
    LoadVars(usize),
    /// Run the number-printing instruction on the loaded variables.
    PrintNumber,
    /// Run the string-printing instruction on the loaded variables.
    PrintString,
    /// Store the registers back into a memory slot.
    StoreVars(usize),
}

/// A `MachineOp` as a plain value.
pub enum MachineOpView {
    Print(Seq<char>),
    LoadVars(usize),
    PrintNumber,
    PrintString,
    StoreVars(usize),
}

impl View for MachineOp {
    type V = MachineOpView;

    open spec fn view(&self) -> MachineOpView {
        match self {
            MachineOp::Print(text) => MachineOpView::Print(text@),
            MachineOp::LoadVars(slot) => MachineOpView::LoadVars(*slot),
            MachineOp::PrintNumber => MachineOpView::PrintNumber,
            MachineOp::PrintString => MachineOpView::PrintString,
            MachineOp::StoreVars(slot) => MachineOpView::StoreVars(*slot),
        }
    }
}

/// The real machine as the processes see it: it records, in order, the
/// operations that the processes ask of it.
pub struct RMProcessor {
    journal: Vec<MachineOp>,
}

impl View for RMProcessor {
    type V = Seq<MachineOpView>;

    closed spec fn view(&self) -> Seq<MachineOpView> {
        Seq::new(self.journal@.len(), |i: int| self.journal@[i]@)
    }
}

impl RMProcessor {
    pub fn new() -> (rm: RMProcessor)
        ensures
            rm@ == Seq::<MachineOpView>::empty(),
    {
        let rm = RMProcessor { journal: Vec::new() };
        assert(rm@ =~= Seq::<MachineOpView>::empty());
        rm
    }

    fn record(&mut self, op: MachineOp)
        ensures
            final(self)@ == old(self)@.push(op@),
    {
        self.journal.push(op);
        assert(self@ =~= old(self)@.push(op@));
    }

    /// Asks for the variables of `slot` to be loaded.
    pub fn get_vars(&mut self, slot: usize)
        ensures
            final(self)@ == old(self)@.push(MachineOpView::LoadVars(slot)),
    {
        self.record(MachineOp::LoadVars(slot));
    }

    /// Asks for the variables to be stored into `slot`.
    pub fn set_vars(&mut self, slot: usize)
        ensures
            final(self)@ == old(self)@.push(MachineOpView::StoreVars(slot)),
    {
        self.record(MachineOp::StoreVars(slot));
    }

    /// Asks for the number-printing instruction.
    pub fn process_prtn(&mut self)
        ensures
            final(self)@ == old(self)@.push(MachineOpView::PrintNumber),
    {
        self.record(MachineOp::PrintNumber);
    }

    /// Asks for the string-printing instruction.
    pub fn process_prts(&mut self)
        ensures
            final(self)@ == old(self)@.push(MachineOpView::PrintString),
    {
        self.record(MachineOp::PrintString);
    }

    /// Asks for `text` to be written to the console as one line.
    pub fn print_line(&mut self, text: String)
        ensures
            final(self)@ == old(self)@.push(MachineOpView::Print(text@)),
    {
        self.record(MachineOp::Print(text));
    }

    /// Hands out the operations recorded so far, oldest first, and forgets them.
    pub fn drain(&mut self) -> (ops: Vec<MachineOp>)
        ensures
            ops@.len() == old(self)@.len(),
            forall|i: int| 0 <= i < ops@.len() ==> (#[trigger] ops@[i])@ == old(self)@[i],
            final(self)@ == Seq::<MachineOpView>::empty(),
    {
        let mut ops: Vec<MachineOp> = Vec::new();
        std::mem::swap(&mut ops, &mut self.journal);
        assert(self@ =~= Seq::<MachineOpView>::empty());
        ops
    }
}

} // verus!
