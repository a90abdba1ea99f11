use vstd::prelude::*;
use vstd::string::*;
use crate::text::{append_decimal, decimal_text};

verus! {

/// Why a tick was abandoned.
#[derive(Clone, Copy, Debug, PartialEq, Eq, Structural)]
pub enum KernelError {
    /// The blocked process `id` reported something other than a request.
    BlockedOutcome { id: usize },
    /// A signal was left for the process `id`, which is not scheduled.
    UnknownTarget { id: usize },
}

/// What the kernel reports of a tick.
#[derive(Clone, Copy, Debug, PartialEq, Eq, Structural)]
pub enum TraceEvent {
    /// The process `id` asked for an instance of `kind`, and got one or not.
    Request { kind: usize, id: usize, granted: bool },
    /// The process `id` leaves the schedule when the tick ends.
    Removal { id: usize },
}

/// The word for a truth value.
pub open spec fn truth_name(value: bool) -> Seq<char> {
    if value {
        "true"@
    } else {
        "false"@
    }
}

/// The line that reports an event: for a request its kind, the id of the
/// process and whether it was granted, between rows of tildes; for a removal
/// the id of the process and the words that it will be removed.
pub open spec fn trace_text(event: TraceEvent) -> Seq<char> {
    match event {
        TraceEvent::Request { kind, id, granted } => "~~~~~~~~~~~~"@ + decimal_text(kind as nat)
            + " "@ + decimal_text(id as nat) + " "@ + truth_name(granted) + "~~~~~~~~~~~~~~~~"@,
        TraceEvent::Removal { id } => decimal_text(id as nat) + " will be removed"@,
    }
}

/// The sentence that names a violation and the process at fault.
pub open spec fn fault_text(fault: KernelError) -> Seq<char> {
    match fault {
        KernelError::BlockedOutcome { id } => "protocol violation: blocked process "@
            + decimal_text(id as nat) + " reported something other than a request"@,
        KernelError::UnknownTarget { id } => "protocol violation: signal for process "@
            + decimal_text(id as nat) + ", which is not scheduled"@,
    }
}

impl TraceEvent {
    /// Writes the event as a line of the trace.
    pub fn line(&self) -> (text: String)
        ensures
            text@ == trace_text(*self),
    {
        match *self {
            TraceEvent::Request { kind, id, granted } => {
                let mut text = String::from_str("~~~~~~~~~~~~");
                append_decimal(&mut text, kind);
                text.append(" ");
                append_decimal(&mut text, id);
                text.append(" ");
                if granted {
                    text.append("true");
                } else {
                    text.append("false");
                }
                text.append("~~~~~~~~~~~~~~~~");
                text
            },
            TraceEvent::Removal { id } => {
                let mut text = String::new();
                append_decimal(&mut text, id);
                text.append(" will be removed");
                assert(text@ =~= trace_text(*self));
                text
            },
        }
    }
}

impl KernelError {
    /// Writes the violation as a sentence.
    pub fn message(&self) -> (text: String)
        ensures
            text@ == fault_text(*self),
    {
        match *self {
            KernelError::BlockedOutcome { id } => {
                let mut text = String::from_str("protocol violation: blocked process ");
                append_decimal(&mut text, id);
                text.append(" reported something other than a request");
                text
            },
            KernelError::UnknownTarget { id } => {
                let mut text = String::from_str("protocol violation: signal for process ");
                append_decimal(&mut text, id);
                text.append(", which is not scheduled");
                text
            },
        }
    }
}

} // verus!
