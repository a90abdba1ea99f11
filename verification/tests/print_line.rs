use kernel_sim::consts::{P_BLOCKED, P_READY, RES_CHNL, RES_DISK, RES_LINE_IN_MEM};
use kernel_sim::operating_system::kernel::Kernel;
use kernel_sim::operating_system::print_line::PrintLine;
use kernel_sim::operating_system::process::{Outcome, Process};
use kernel_sim::operating_system::resource::Resource;
use kernel_sim::operating_system::trace::TraceEvent;
use kernel_sim::real_machine::processor::{MachineOp, RMProcessor};

fn line(text: &str) -> Resource {
    Resource::new(RES_LINE_IN_MEM, text.to_string())
}

fn channel() -> Resource {
    Resource::new(RES_CHNL, String::new())
}

/// Runs a line printer that holds `text` and the channel through its printing step.
fn ops_for(text: &str) -> Vec<MachineOp> {
    let mut p = PrintLine::new(1, 0, 0);
    let mut rm = RMProcessor::new();
    p.add_resource(line(text));
    p.add_resource(channel());
    assert!(p.step(&mut rm).is_none());
    assert!(p.step(&mut rm).is_none());
    assert!(p.step(&mut rm).is_none());
    assert_eq!(p.get_section(), 3);
    assert!(!p.has_resource(RES_LINE_IN_MEM));
    assert!(p.has_resource(RES_CHNL));
    rm.drain()
}

#[test]
fn new_line_printer() {
    let p = PrintLine::new(4, 2, 7);
    assert_eq!(p.get_id(), 4);
    assert_eq!(p.get_parent_id(), 2);
    assert_eq!(p.get_vm(), 7);
    assert_eq!(p.get_state(), P_READY);
    assert_eq!(p.get_priority(), 3);
    assert_eq!(p.get_section(), 0);
    assert!(!p.has_resource(RES_CHNL));
}

#[test]
fn accessors_write_through() {
    let mut p = PrintLine::new(4, 2, 7);
    p.set_state(P_BLOCKED);
    p.set_vm(9);
    assert_eq!(p.get_state(), P_BLOCKED);
    assert_eq!(p.get_vm(), 9);
    assert_eq!(p.get_id(), 4);
}

#[test]
fn take_resource_hands_out_the_oldest_of_the_kind() {
    let mut p = PrintLine::new(1, 0, 0);
    p.add_resource(Resource::new(RES_DISK, "a".to_string()));
    p.add_resource(Resource::new(RES_CHNL, "b".to_string()));
    p.add_resource(Resource::new(RES_CHNL, "c".to_string()));
    assert!(p.has_resource(RES_CHNL));
    let got = p.take_resource(RES_CHNL);
    assert_eq!(got.get_type(), RES_CHNL);
    assert_eq!(got.get_msg(), "b");
    assert!(p.has_resource(RES_CHNL));
    assert_eq!(p.take_resource(RES_CHNL).get_msg(), "c");
    assert!(!p.has_resource(RES_CHNL));
    assert!(p.has_resource(RES_DISK));
}

#[test]
fn step_asks_for_the_line_then_for_the_channel() {
    let mut p = PrintLine::new(1, 0, 0);
    let mut rm = RMProcessor::new();
    assert!(matches!(p.step(&mut rm), Some(Outcome::Request(RES_LINE_IN_MEM))));
    assert_eq!(p.get_section(), 0);
    p.set_state(P_BLOCKED);
    p.add_resource(line("ehello"));
    assert!(p.step(&mut rm).is_none());
    assert_eq!(p.get_section(), 1);
    assert_eq!(p.get_state(), P_READY);
    assert!(matches!(p.step(&mut rm), Some(Outcome::Request(RES_CHNL))));
    assert_eq!(p.get_section(), 1);
    p.add_resource(channel());
    assert!(p.step(&mut rm).is_none());
    assert_eq!(p.get_section(), 2);
    assert!(rm.drain().is_empty());
}

#[test]
fn step_prints_and_releases_the_channel() {
    let mut p = PrintLine::new(1, 0, 0);
    let mut rm = RMProcessor::new();
    p.add_resource(line("ehello"));
    p.add_resource(channel());
    assert!(p.step(&mut rm).is_none());
    assert!(p.step(&mut rm).is_none());
    assert!(p.step(&mut rm).is_none());
    assert_eq!(rm.drain(), vec![MachineOp::Print("hello".to_string())]);
    match p.step(&mut rm) {
        Some(Outcome::Release(res)) => assert_eq!(res.get_type(), RES_CHNL),
        _ => panic!("the channel should be released"),
    }
    assert_eq!(p.get_section(), 0);
    assert!(!p.has_resource(RES_CHNL));
    assert!(matches!(p.step(&mut rm), Some(Outcome::Request(RES_LINE_IN_MEM))));
}

#[test]
fn echo_command_prints_the_rest() {
    assert_eq!(ops_for("e"), vec![MachineOp::Print(String::new())]);
    assert_eq!(ops_for("e na\u{ef}ve"), vec![MachineOp::Print(" na\u{ef}ve".to_string())]);
}

#[test]
fn number_command_runs_on_the_variables_of_the_machine() {
    assert_eq!(
        ops_for("n2"),
        vec![MachineOp::LoadVars(12), MachineOp::PrintNumber, MachineOp::StoreVars(12)]
    );
    assert_eq!(
        ops_for("n+05"),
        vec![MachineOp::LoadVars(15), MachineOp::PrintNumber, MachineOp::StoreVars(15)]
    );
}

#[test]
fn string_command_runs_on_the_variables_of_the_machine() {
    assert_eq!(
        ops_for("s0"),
        vec![MachineOp::LoadVars(10), MachineOp::PrintString, MachineOp::StoreVars(10)]
    );
}

#[test]
fn unknown_command_is_answered_with_a_complaint() {
    let complaint = vec![MachineOp::Print("Invalid type for printing!".to_string())];
    assert_eq!(ops_for("x12"), complaint);
    assert_eq!(ops_for(""), complaint);
    assert_eq!(ops_for("n"), complaint);
    assert_eq!(ops_for("n1x"), complaint);
    assert_eq!(ops_for("s-1"), complaint);
    assert_eq!(ops_for("n99999999999999999999999999"), complaint);
    assert_eq!(ops_for(&format!("n{}", usize::MAX)), complaint);
    assert_eq!(ops_for(&format!("n{}", usize::MAX - 9)), complaint);
    assert_eq!(
        ops_for(&format!("n{}", usize::MAX - 10)),
        vec![
            MachineOp::LoadVars(usize::MAX),
            MachineOp::PrintNumber,
            MachineOp::StoreVars(usize::MAX)
        ]
    );
}

#[test]
fn print_describes_the_process() {
    let mut p = PrintLine::new(12, 0, 0);
    assert_eq!(p.print(), "Process: PrintLine 12\nStatus: P_READY\nSection: 0\n\n");
    p.add_resource(line("e"));
    p.add_resource(channel());
    p.add_resource(Resource::new(99, String::new()));
    p.set_state(P_BLOCKED);
    assert_eq!(
        p.print(),
        "Process: PrintLine 12\nStatus: P_BLOCKED\nSection: 0\nResource: RES_LINE_IN_MEM\nResource: RES_CHNL\nResource: INVALID RESOURSE\n\n"
    );
    p.set_state(77);
    assert_eq!(
        PrintLine::new(0, 0, 0).print(),
        "Process: PrintLine 0\nStatus: P_READY\nSection: 0\n\n"
    );
    assert!(p.print().contains("Status: INVALID STATE\n"));
}

#[test]
fn two_line_printers_share_the_channel() {
    let mut kernel: Kernel<PrintLine> = Kernel::new();
    let mut rm = RMProcessor::new();
    kernel.add_resource(line("efirst"));
    kernel.add_resource(line("esecond"));
    kernel.add_resource(channel());
    kernel.add_process(PrintLine::new(1, 0, 0));
    kernel.add_process(PrintLine::new(2, 0, 0));

    let trace = kernel.tick(&mut rm).unwrap();
    assert_eq!(
        trace,
        vec![
            TraceEvent::Request { kind: RES_LINE_IN_MEM, id: 1, granted: true },
            TraceEvent::Request { kind: RES_LINE_IN_MEM, id: 2, granted: true },
        ]
    );
    let trace = kernel.tick(&mut rm).unwrap();
    assert_eq!(
        trace,
        vec![
            TraceEvent::Request { kind: RES_CHNL, id: 1, granted: true },
            TraceEvent::Request { kind: RES_CHNL, id: 2, granted: false },
        ]
    );
    // The first printer finds the channel and prints within one visit.
    let trace = kernel.tick(&mut rm).unwrap();
    assert_eq!(trace, vec![TraceEvent::Request { kind: RES_CHNL, id: 2, granted: false }]);
    assert_eq!(rm.drain(), vec![MachineOp::Print("first".to_string())]);
    assert_eq!(kernel.get_process(1).unwrap().get_section(), 3);
    // It gives the channel back, and the second printer gets it in the same tick.
    let trace = kernel.tick(&mut rm).unwrap();
    assert_eq!(trace, vec![TraceEvent::Request { kind: RES_CHNL, id: 2, granted: true }]);
    assert_eq!(kernel.get_process(1).unwrap().get_section(), 0);
    let trace = kernel.tick(&mut rm).unwrap();
    assert_eq!(trace, vec![TraceEvent::Request { kind: RES_LINE_IN_MEM, id: 1, granted: false }]);
    assert_eq!(rm.drain(), vec![MachineOp::Print("second".to_string())]);
}
