use kernel_sim::consts::{P_BLOCKED, P_READY, P_READY_SUSP, RES_CHNL, RES_DISK};
use kernel_sim::operating_system::kernel::Kernel;
use kernel_sim::operating_system::process::Process;
use kernel_sim::operating_system::resource::Resource;
use kernel_sim::operating_system::trace::{KernelError, TraceEvent};
use kernel_sim::operating_system::script::{Action, Script};
use kernel_sim::real_machine::processor::RMProcessor;

fn channel() -> Resource {
    Resource::new(RES_CHNL, String::new())
}

fn ids(kernel: &Kernel<Script>) -> Vec<usize> {
    let mut out = Vec::new();
    for i in 0..kernel.process_count() {
        out.push(kernel.process_at(i).get_id());
    }
    out
}

#[test]
fn new_kernel_is_empty() {
    let kernel: Kernel<Script> = Kernel::new();
    assert_eq!(kernel.process_count(), 0);
    assert_eq!(kernel.get_resources().len(), 0);
    assert!(kernel.get_process(1).is_none());
}

#[test]
fn tick_of_empty_kernel_does_nothing() {
    let mut kernel: Kernel<Script> = Kernel::new();
    let mut rm = RMProcessor::new();
    assert_eq!(kernel.tick(&mut rm), Ok(vec![]));
    assert_eq!(kernel.process_count(), 0);
    assert!(rm.drain().is_empty());
}

#[test]
fn channel_goes_to_higher_priority_then_to_waiter() {
    let mut kernel: Kernel<Script> = Kernel::new();
    let mut rm = RMProcessor::new();
    kernel.add_resource(channel());
    kernel.add_process(Script::new(2, 0, 2, vec![Action::Acquire(RES_CHNL)]));
    kernel.add_process(Script::new(
        1,
        0,
        1,
        vec![Action::Acquire(RES_CHNL), Action::Idle, Action::Release(RES_CHNL)],
    ));

    // Both ask in the first tick; the process of priority 1 is served.
    let trace = kernel.tick(&mut rm).unwrap();
    assert_eq!(
        trace,
        vec![
            TraceEvent::Request { kind: RES_CHNL, id: 1, granted: true },
            TraceEvent::Request { kind: RES_CHNL, id: 2, granted: false },
        ]
    );
    assert_eq!(ids(&kernel), vec![1, 2]);
    assert!(kernel.get_process(1).unwrap().has_resource(RES_CHNL));
    assert!(!kernel.get_process(2).unwrap().has_resource(RES_CHNL));
    assert!(!kernel.get_resources().has(RES_CHNL));

    // The waiter asks again and misses while the channel is held.
    let trace = kernel.tick(&mut rm).unwrap();
    assert_eq!(trace, vec![TraceEvent::Request { kind: RES_CHNL, id: 2, granted: false }]);
    assert!(!kernel.get_process(2).unwrap().has_resource(RES_CHNL));
    assert_eq!(kernel.get_process(2).unwrap().get_section(), 0);

    // The holder gives the channel back; the waiter, visited later, gets it.
    let trace = kernel.tick(&mut rm).unwrap();
    assert_eq!(trace, vec![TraceEvent::Request { kind: RES_CHNL, id: 2, granted: true }]);
    assert!(!kernel.get_process(1).unwrap().has_resource(RES_CHNL));
    assert!(kernel.get_process(2).unwrap().has_resource(RES_CHNL));
    assert_eq!(kernel.get_resources().len(), 0);
}

#[test]
fn idle_process_is_stepped_exactly_twice() {
    let mut kernel: Kernel<Script> = Kernel::new();
    let mut rm = RMProcessor::new();
    kernel.add_process(Script::new(
        1,
        0,
        1,
        vec![Action::Idle, Action::Idle, Action::Idle, Action::Idle, Action::Idle],
    ));
    assert_eq!(kernel.tick(&mut rm), Ok(vec![]));
    assert_eq!(kernel.get_process(1).unwrap().get_section(), 2);
    assert_eq!(kernel.tick(&mut rm), Ok(vec![]));
    assert_eq!(kernel.get_process(1).unwrap().get_section(), 4);
}

#[test]
fn blocked_process_that_spawns_is_a_violation() {
    let mut kernel: Kernel<Script> = Kernel::new();
    let mut rm = RMProcessor::new();
    kernel.add_resource(channel());
    let mut blocked = Script::new(7, 0, 1, vec![Action::Spawn { id: 8, priority: 1 }]);
    blocked.set_state(P_BLOCKED);
    kernel.add_process(blocked);
    kernel.add_process(Script::new(9, 0, 2, vec![Action::Acquire(RES_CHNL)]));

    assert_eq!(kernel.tick(&mut rm), Err(KernelError::BlockedOutcome { id: 7 }));
    // Nothing was granted or scheduled.
    assert_eq!(kernel.get_resources().len(), 1);
    assert_eq!(ids(&kernel), vec![7, 9]);
    assert_eq!(kernel.get_process(9).unwrap().resource_count(), 0);
    assert_eq!(kernel.get_process(9).unwrap().get_section(), 0);
}

#[test]
fn blocked_process_may_request() {
    let mut kernel: Kernel<Script> = Kernel::new();
    let mut rm = RMProcessor::new();
    kernel.add_resource(channel());
    let mut blocked = Script::new(7, 0, 1, vec![Action::Acquire(RES_CHNL), Action::Idle]);
    blocked.set_state(P_BLOCKED);
    kernel.add_process(blocked);

    let trace = kernel.tick(&mut rm).unwrap();
    assert_eq!(trace, vec![TraceEvent::Request { kind: RES_CHNL, id: 7, granted: true }]);
    let p = kernel.get_process(7).unwrap();
    assert!(p.has_resource(RES_CHNL));
    // The grant does not change the state, and a blocked process is stepped once.
    assert_eq!(p.get_state(), P_BLOCKED);
    assert_eq!(p.get_section(), 0);

    assert_eq!(kernel.tick(&mut rm), Ok(vec![]));
    assert_eq!(kernel.get_process(7).unwrap().get_section(), 1);
}

#[test]
fn blocked_process_that_wakes_runs_as_ready_in_the_same_visit() {
    let mut kernel: Kernel<Script> = Kernel::new();
    let mut rm = RMProcessor::new();
    let mut blocked = Script::new(
        3,
        0,
        1,
        vec![Action::Enter(P_READY), Action::Idle, Action::Idle, Action::Idle],
    );
    blocked.set_state(P_BLOCKED);
    kernel.add_process(blocked);
    assert_eq!(kernel.tick(&mut rm), Ok(vec![]));
    let p = kernel.get_process(3).unwrap();
    assert_eq!(p.get_state(), P_READY);
    assert_eq!(p.get_section(), 3);
}

#[test]
fn missed_request_leaves_process_and_pool_unchanged() {
    let mut kernel: Kernel<Script> = Kernel::new();
    let mut rm = RMProcessor::new();
    kernel.add_resource(Resource::new(RES_DISK, String::new()));
    kernel.add_process(Script::new(1, 0, 1, vec![Action::Acquire(RES_CHNL)]));
    let trace = kernel.tick(&mut rm).unwrap();
    assert_eq!(trace, vec![TraceEvent::Request { kind: RES_CHNL, id: 1, granted: false }]);
    let p = kernel.get_process(1).unwrap();
    assert_eq!(p.resource_count(), 0);
    assert_eq!(p.get_state(), P_READY);
    assert_eq!(p.get_section(), 0);
    assert_eq!(kernel.get_resources().len(), 1);
    assert!(kernel.get_resources().has(RES_DISK));
}

#[test]
fn terminated_process_leaves_at_the_end_of_the_tick() {
    let mut kernel: Kernel<Script> = Kernel::new();
    let mut rm = RMProcessor::new();
    kernel.add_process(Script::new(1, 0, 1, vec![Action::Exit]));
    kernel.add_process(Script::new(2, 0, 2, vec![Action::Idle]));
    let trace = kernel.tick(&mut rm).unwrap();
    assert_eq!(trace, vec![TraceEvent::Removal { id: 1 }]);
    assert_eq!(ids(&kernel), vec![2]);
    assert!(kernel.get_process(1).is_none());
    // The other process was visited as usual.
    assert_eq!(kernel.get_process(2).unwrap().get_section(), 1);
}

#[test]
fn spawned_process_joins_after_the_tick_and_is_sorted_in_the_next() {
    let mut kernel: Kernel<Script> = Kernel::new();
    let mut rm = RMProcessor::new();
    kernel.add_process(Script::new(1, 0, 5, vec![Action::Spawn { id: 2, priority: 1 }]));
    kernel.add_process(Script::new(3, 0, 7, vec![]));
    assert_eq!(kernel.tick(&mut rm), Ok(vec![]));
    // Appended, not yet in priority position.
    assert_eq!(ids(&kernel), vec![1, 3, 2]);
    let child = kernel.get_process(2).unwrap();
    assert_eq!(child.get_parent_id(), 1);
    assert_eq!(child.get_priority(), 1);
    assert_eq!(child.get_state(), P_READY);
    assert_eq!(kernel.tick(&mut rm), Ok(vec![]));
    assert_eq!(ids(&kernel), vec![2, 1, 3]);
}

#[test]
fn equal_priorities_keep_their_order() {
    let mut kernel: Kernel<Script> = Kernel::new();
    let mut rm = RMProcessor::new();
    kernel.add_process(Script::new(1, 0, 2, vec![]));
    kernel.add_process(Script::new(2, 0, 1, vec![]));
    kernel.add_process(Script::new(3, 0, 2, vec![]));
    kernel.add_process(Script::new(4, 0, 1, vec![]));
    kernel.add_process(Script::new(5, 0, 0, vec![]));
    assert_eq!(kernel.tick(&mut rm), Ok(vec![]));
    assert_eq!(ids(&kernel), vec![5, 2, 4, 1, 3]);
    assert_eq!(kernel.tick(&mut rm), Ok(vec![]));
    assert_eq!(ids(&kernel), vec![5, 2, 4, 1, 3]);
}

#[test]
fn signal_reaches_a_later_process_before_its_step() {
    let mut kernel: Kernel<Script> = Kernel::new();
    let mut rm = RMProcessor::new();
    kernel.add_process(Script::new(1, 0, 1, vec![Action::Signal { target: 2, state: P_READY_SUSP }]));
    kernel.add_process(Script::new(2, 0, 2, vec![Action::Idle]));
    assert_eq!(kernel.tick(&mut rm), Ok(vec![]));
    let target = kernel.get_process(2).unwrap();
    assert_eq!(target.get_state(), P_READY_SUSP);
    // A suspended process is not stepped.
    assert_eq!(target.get_section(), 0);
}

#[test]
fn signal_reaches_an_earlier_process_at_the_end_of_the_tick() {
    let mut kernel: Kernel<Script> = Kernel::new();
    let mut rm = RMProcessor::new();
    kernel.add_process(Script::new(1, 0, 1, vec![Action::Idle, Action::Idle, Action::Idle]));
    kernel.add_process(Script::new(2, 0, 2, vec![Action::Signal { target: 1, state: P_BLOCKED }]));
    assert_eq!(kernel.tick(&mut rm), Ok(vec![]));
    let target = kernel.get_process(1).unwrap();
    assert_eq!(target.get_section(), 2);
    assert_eq!(target.get_state(), P_BLOCKED);
    // The signal was used up: the process decides its own state from now on.
    assert_eq!(kernel.tick(&mut rm), Ok(vec![]));
    let target = kernel.get_process(1).unwrap();
    assert_eq!(target.get_section(), 3);
    assert_eq!(target.get_state(), P_BLOCKED);
}

#[test]
fn signal_without_target_is_a_violation() {
    let mut kernel: Kernel<Script> = Kernel::new();
    let mut rm = RMProcessor::new();
    kernel.add_process(Script::new(1, 0, 1, vec![Action::Signal { target: 42, state: P_READY }]));
    assert_eq!(kernel.tick(&mut rm), Err(KernelError::UnknownTarget { id: 42 }));
    assert_eq!(ids(&kernel), vec![1]);
}

#[test]
fn release_is_followed_by_one_more_step() {
    let mut kernel: Kernel<Script> = Kernel::new();
    let mut rm = RMProcessor::new();
    kernel.add_resource(channel());
    kernel.add_process(Script::new(
        1,
        0,
        1,
        vec![Action::Acquire(RES_CHNL), Action::Release(RES_CHNL), Action::Idle, Action::Idle],
    ));
    kernel.tick(&mut rm).unwrap();
    assert_eq!(kernel.get_process(1).unwrap().get_section(), 0);
    // Acquire finds the channel held, Release gives it back, one more step follows.
    kernel.tick(&mut rm).unwrap();
    assert_eq!(kernel.get_process(1).unwrap().get_section(), 3);
    assert_eq!(kernel.get_resources().len(), 1);
    assert_eq!(kernel.get_process(1).unwrap().resource_count(), 0);
}

#[test]
fn instances_are_neither_made_nor_lost() {
    let mut kernel: Kernel<Script> = Kernel::new();
    let mut rm = RMProcessor::new();
    kernel.add_resource(channel());
    kernel.add_resource(channel());
    kernel.add_resource(Resource::new(RES_DISK, String::new()));
    kernel.add_process(Script::new(1, 0, 1, vec![Action::Acquire(RES_CHNL), Action::Release(RES_CHNL)]));
    kernel.add_process(Script::new(2, 0, 1, vec![Action::Acquire(RES_CHNL), Action::Acquire(RES_DISK)]));
    kernel.add_process(Script::new(3, 0, 2, vec![Action::Acquire(RES_CHNL)]));
    for _ in 0..6 {
        kernel.tick(&mut rm).unwrap();
        let mut held = 0;
        for i in 0..kernel.process_count() {
            held += kernel.process_at(i).resource_count();
        }
        assert_eq!(held + kernel.get_resources().len(), 3);
    }
}

#[test]
fn planner_schedules_bootstrap_and_runs_ticks() {
    let mut kernel: Kernel<Script> = Kernel::new();
    let mut rm = RMProcessor::new();
    kernel.add_resource(channel());
    let bootstrap = Script::new(
        1,
        0,
        0,
        vec![Action::Spawn { id: 2, priority: 3 }, Action::Acquire(RES_CHNL), Action::Exit],
    );
    let trace = kernel.planner(&mut rm, bootstrap, 3).unwrap();
    assert_eq!(
        trace,
        vec![
            TraceEvent::Request { kind: RES_CHNL, id: 1, granted: true },
            TraceEvent::Removal { id: 1 },
        ]
    );
    assert_eq!(ids(&kernel), vec![2]);
}

#[test]
fn planner_stops_at_a_violation() {
    let mut kernel: Kernel<Script> = Kernel::new();
    let mut rm = RMProcessor::new();
    let bootstrap = Script::new(
        1,
        0,
        0,
        vec![Action::Enter(P_BLOCKED), Action::Idle, Action::Exit, Action::Idle],
    );
    assert_eq!(
        kernel.planner(&mut rm, bootstrap, 10),
        Err(KernelError::BlockedOutcome { id: 1 })
    );
    assert_eq!(kernel.get_process(1).unwrap().get_section(), 3);
}
