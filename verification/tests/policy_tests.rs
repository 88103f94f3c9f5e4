use schedsim::fcfs::FCFS;
use schedsim::process::Process;
use schedsim::process::ProcessState;
use schedsim::real_sjf::RealSjf;
use schedsim::rr::RR;
use schedsim::scheduler::Scheduler;
use schedsim::sjf::SJF;

fn proc(name: &str, arrival: i32, burst: i32) -> Process {
    Process::new(name.to_string(), arrival, burst)
}

#[test]
fn fcfs_dispatches_first_arrival_only() {
    let mut sched = FCFS::default();
    let mut p1 = proc("P1", 0, 5);
    let mut p2 = proc("P2", 0, 3);
    p1.deselect();
    sched.on_arrive(&mut p1, 0);
    p2.deselect();
    sched.on_arrive(&mut p2, 0);

    // Exactly one process is Running, and it is the one the policy names.
    assert_eq!(p1.state, Some(ProcessState::Running));
    assert_eq!(p2.state, Some(ProcessState::Ready));
    assert_eq!(sched.selected_process_name(), Some("P1".to_string()));
}

#[test]
fn fcfs_pre_tick_keeps_dispatched_job() {
    let mut sched = FCFS::default();
    let mut p1 = proc("P1", 0, 5);
    let mut p2 = proc("P2", 0, 3);
    p1.deselect();
    sched.on_arrive(&mut p1, 0);
    p2.deselect();
    sched.on_arrive(&mut p2, 0);
    sched.pre_tick(&mut p1, 0);
    sched.pre_tick(&mut p2, 0);
    assert_eq!(p1.state, Some(ProcessState::Running));
    assert_eq!(p2.state, Some(ProcessState::Ready));
}

#[test]
fn sjf_arrival_with_shorter_burst_preempts() {
    let mut sched = SJF::default();
    let mut p1 = proc("P1", 0, 6);
    p1.deselect();
    sched.on_arrive(&mut p1, 0);
    assert_eq!(p1.state, Some(ProcessState::Running));

    let mut p2 = proc("P2", 1, 2);
    p2.deselect();
    sched.on_arrive(&mut p2, 1);
    assert_eq!(p2.state, Some(ProcessState::Running));
    assert_eq!(sched.selected_process_name(), Some("P2".to_string()));

    // The dispatch decision then returns the longer job to Ready.
    sched.pre_tick(&mut p1, 1);
    assert_eq!(p1.state, Some(ProcessState::Ready));
}

#[test]
fn sjf_arrival_with_longer_burst_waits() {
    let mut sched = SJF::default();
    let mut p1 = proc("P1", 0, 3);
    p1.deselect();
    sched.on_arrive(&mut p1, 0);
    let mut p2 = proc("P2", 1, 9);
    p2.deselect();
    sched.on_arrive(&mut p2, 1);
    assert_eq!(p2.state, Some(ProcessState::Ready));
    assert_eq!(sched.selected_process_name(), Some("P1".to_string()));
}

#[test]
fn rr_grants_full_quantum_and_requeues() {
    let mut sched = RR::new(2);
    let mut p1 = proc("P1", 0, 5);
    let mut p2 = proc("P2", 0, 5);
    p1.deselect();
    sched.on_arrive(&mut p1, 0);
    p2.deselect();
    sched.on_arrive(&mut p2, 0);
    assert_eq!(sched.selected_process_name(), None);

    sched.pre_tick(&mut p1, 0);
    assert_eq!(p1.state, Some(ProcessState::Running));
    assert_eq!(sched.selected_process_name(), Some("P1".to_string()));

    // One observed tick spends one unit; the second exhausts the
    // quantum, requeues the holder and releases the CPU.
    sched.on_tick(&mut p1, 1);
    assert_eq!(p1.state, Some(ProcessState::Running));
    sched.on_tick(&mut p1, 2);
    assert_eq!(p1.state, Some(ProcessState::Ready));
    assert_eq!(sched.selected_process_name(), None);

    // The next dispatch decision promotes the queue head.
    sched.pre_tick(&mut p1, 2);
    assert_eq!(p1.state, Some(ProcessState::Ready));
    sched.pre_tick(&mut p2, 2);
    assert_eq!(p2.state, Some(ProcessState::Running));
    assert_eq!(sched.selected_process_name(), Some("P2".to_string()));
}

#[test]
fn real_sjf_dispatches_only_the_sole_arrival() {
    let mut sched = RealSjf::default();
    let mut p1 = proc("P1", 0, 9);
    p1.deselect();
    sched.on_arrive(&mut p1, 0);
    assert_eq!(p1.state, Some(ProcessState::Running));

    // A shorter later arrival does not preempt the dispatched job.
    let mut p2 = proc("P2", 1, 1);
    p2.deselect();
    sched.on_arrive(&mut p2, 1);
    assert_eq!(p2.state, Some(ProcessState::Ready));
    assert_eq!(sched.selected_process_name(), Some("P1".to_string()));

    // At the completion the shortest survivor is promoted.
    let mut p3 = proc("P3", 1, 5);
    p3.deselect();
    sched.on_arrive(&mut p3, 1);
    sched.on_finish(&p1, 9);
    assert_eq!(sched.selected_process_name(), Some("P2".to_string()));
}

#[test]
fn descriptive_names_label_the_policies() {
    assert_eq!(FCFS::default().descriptive_name(), "First-Come First-Served");
    assert_eq!(SJF::default().descriptive_name(), "preemptive Shortest Job First");
    assert_eq!(RealSjf::default().descriptive_name(), "real Shortest Job First (non-preemptive)");
    assert_eq!(RR::new(3).descriptive_name(), "Round-Robin");
    assert_eq!(RR::new(3).quantum(), 3);
}
