use kernel_sim::consts::{RES_CHNL, RES_DISK, RES_LINE_IN_MEM};
use kernel_sim::operating_system::resource::Resource;
use kernel_sim::operating_system::resource_list::{position_of_kind, ResourceList};
use kernel_sim::operating_system::trace::{KernelError, TraceEvent};
use kernel_sim::real_machine::processor::{MachineOp, RMProcessor};
use kernel_sim::text::{append_decimal, parse_usize};

#[test]
fn parse_usize_reads_digits() {
    assert_eq!(parse_usize("0"), Some(0));
    assert_eq!(parse_usize("7"), Some(7));
    assert_eq!(parse_usize("007"), Some(7));
    assert_eq!(parse_usize("+42"), Some(42));
    assert_eq!(parse_usize("1234567890"), Some(1234567890));
    assert_eq!(parse_usize(&usize::MAX.to_string()), Some(usize::MAX));
}

#[test]
fn parse_usize_refuses_other_text() {
    assert_eq!(parse_usize(""), None);
    assert_eq!(parse_usize("+"), None);
    assert_eq!(parse_usize("-1"), None);
    assert_eq!(parse_usize("++1"), None);
    assert_eq!(parse_usize("1+"), None);
    assert_eq!(parse_usize(" 1"), None);
    assert_eq!(parse_usize("1 "), None);
    assert_eq!(parse_usize("12a"), None);
    assert_eq!(parse_usize("\u{663}"), None);
    assert_eq!(parse_usize(&format!("{}0", usize::MAX)), None);
    assert_eq!(parse_usize("18446744073709551616000"), None);
}

#[test]
fn parse_usize_agrees_with_std() {
    let max = usize::MAX.to_string();
    let texts = ["", "+", "+0", "-0", "00", "9", "10", "+10", "a", "1_0", "0x10", max.as_str()];
    for text in texts {
        assert_eq!(parse_usize(text), text.parse::<usize>().ok(), "{:?}", text);
    }
}

#[test]
fn append_decimal_writes_the_digits() {
    let mut text = String::from("n=");
    append_decimal(&mut text, 0);
    assert_eq!(text, "n=0");
    append_decimal(&mut text, 9);
    append_decimal(&mut text, 10);
    append_decimal(&mut text, 4096);
    assert_eq!(text, "n=09104096");
    let mut text = String::new();
    append_decimal(&mut text, usize::MAX);
    assert_eq!(text, usize::MAX.to_string());
}

#[test]
fn decimal_text_reads_back() {
    for n in [0, 1, 9, 10, 99, 100, 12345, usize::MAX] {
        let mut text = String::new();
        append_decimal(&mut text, n);
        assert_eq!(parse_usize(&text), Some(n));
    }
}

#[test]
fn resource_keeps_kind_and_message() {
    let res = Resource::new(RES_LINE_IN_MEM, "ehello".to_string());
    assert_eq!(res.get_type(), RES_LINE_IN_MEM);
    assert_eq!(res.get_msg(), "ehello");
}

#[test]
fn pool_hands_out_the_oldest_instance_of_a_kind() {
    let mut pool = ResourceList::new();
    assert_eq!(pool.len(), 0);
    assert!(pool.take(RES_CHNL, 1).is_none());
    pool.add(Resource::new(RES_DISK, "d".to_string()));
    pool.add(Resource::new(RES_CHNL, "first".to_string()));
    pool.add(Resource::new(RES_CHNL, "second".to_string()));
    assert_eq!(pool.len(), 3);
    assert!(pool.has(RES_CHNL));
    assert!(!pool.has(RES_LINE_IN_MEM));

    assert!(pool.take(RES_LINE_IN_MEM, 1).is_none());
    assert_eq!(pool.len(), 3);

    let got = pool.take(RES_CHNL, 1).unwrap();
    assert_eq!(got.get_type(), RES_CHNL);
    assert_eq!(got.get_msg(), "first");
    assert_eq!(pool.take(RES_CHNL, 2).unwrap().get_msg(), "second");
    assert!(pool.take(RES_CHNL, 3).is_none());
    assert_eq!(pool.len(), 1);
    assert!(pool.has(RES_DISK));
}

#[test]
fn position_of_kind_is_the_first_match_or_the_length() {
    let held = vec![
        Resource::new(RES_DISK, String::new()),
        Resource::new(RES_CHNL, String::new()),
        Resource::new(RES_DISK, String::new()),
    ];
    assert_eq!(position_of_kind(&held, RES_DISK), 0);
    assert_eq!(position_of_kind(&held, RES_CHNL), 1);
    assert_eq!(position_of_kind(&held, RES_LINE_IN_MEM), 3);
    assert_eq!(position_of_kind(&Vec::new(), RES_DISK), 0);
}

#[test]
fn machine_records_operations_in_order() {
    let mut rm = RMProcessor::new();
    rm.get_vars(11);
    rm.process_prtn();
    rm.process_prts();
    rm.set_vars(11);
    rm.print_line("done".to_string());
    assert_eq!(
        rm.drain(),
        vec![
            MachineOp::LoadVars(11),
            MachineOp::PrintNumber,
            MachineOp::PrintString,
            MachineOp::StoreVars(11),
            MachineOp::Print("done".to_string()),
        ]
    );
    assert!(rm.drain().is_empty());
}

#[test]
fn trace_lines() {
    assert_eq!(
        TraceEvent::Request { kind: RES_CHNL, id: 12, granted: true }.line(),
        format!("~~~~~~~~~~~~{} {} {}~~~~~~~~~~~~~~~~", RES_CHNL, 12, true)
    );
    assert_eq!(
        TraceEvent::Request { kind: 0, id: 0, granted: false }.line(),
        "~~~~~~~~~~~~0 0 false~~~~~~~~~~~~~~~~"
    );
    assert_eq!(TraceEvent::Removal { id: 305 }.line(), "305 will be removed");
}

#[test]
fn violation_messages() {
    assert_eq!(
        KernelError::BlockedOutcome { id: 7 }.message(),
        "protocol violation: blocked process 7 reported something other than a request"
    );
    assert_eq!(
        KernelError::UnknownTarget { id: 42 }.message(),
        "protocol violation: signal for process 42, which is not scheduled"
    );
}
