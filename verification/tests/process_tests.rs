use schedsim::process::Process;
use schedsim::process::ProcessState;

fn proc(name: &str, arrival: i32, burst: i32) -> Process {
    Process::new(name.to_string(), arrival, burst)
}

#[test]
fn new_process_is_fresh() {
    let p = proc("A", 3, 7);
    assert_eq!(p.arrival_time, 3);
    assert_eq!(p.burst_time, 7);
    assert_eq!(p.time_remaining, 7);
    assert_eq!(p.state, None);
    assert_eq!(p.turnaround_time, 0);
    assert_eq!(p.response_time, 0);
    assert_eq!(p.wait_time, 0);
    assert_eq!(p.last_selection_time, None);
    assert_eq!(p.finish_time, None);
    assert!(!p.finished());
}

#[test]
fn tick_is_a_no_op_before_arrival() {
    let mut p = proc("A", 5, 2);
    p.tick(1);
    assert_eq!(p.turnaround_time, 0);
    assert_eq!(p.wait_time, 0);
    assert_eq!(p.time_remaining, 2);
}

#[test]
fn ready_tick_accumulates_wait_and_response() {
    let mut p = proc("A", 0, 3);
    p.deselect();
    p.tick(1);
    assert_eq!(p.wait_time, 1);
    assert_eq!(p.turnaround_time, 1);
    assert_eq!(p.response_time, 1);
}

#[test]
fn response_time_stops_after_first_dispatch() {
    let mut p = proc("A", 0, 3);
    p.deselect();
    p.tick(1);
    p.select(1);
    p.tick(2);
    p.deselect();
    p.tick(3);
    // Ready again, but it has run once: response time stays at 1.
    assert_eq!(p.response_time, 1);
    assert_eq!(p.wait_time, 2);
    assert_eq!(p.turnaround_time, 3);
}

#[test]
fn running_tick_burns_burst_and_finishes() {
    let mut p = proc("A", 0, 2);
    p.select(0);
    assert_eq!(p.state, Some(ProcessState::Running));
    assert_eq!(p.last_selection_time, Some(0));
    p.tick(1);
    assert_eq!(p.time_remaining, 1);
    assert!(!p.finished());
    p.tick(2);
    assert_eq!(p.time_remaining, 0);
    assert!(p.finished());
    assert_eq!(p.state, None);
    assert_eq!(p.finish_time, Some(2));
}

#[test]
fn deselect_never_overwrites_finished() {
    let mut p = proc("A", 0, 1);
    p.select(0);
    p.tick(1);
    assert!(p.finished());
    p.deselect();
    assert_eq!(p.state, None);
    assert_eq!(p.finish_time, Some(1));
}

#[test]
fn arrived_compares_against_arrival_time() {
    let p = proc("A", 4, 1);
    assert!(!p.arrived(3));
    assert!(p.arrived(4));
    assert!(p.arrived(5));
}

#[test]
fn turnaround_splits_into_wait_plus_executed() {
    let mut p = proc("A", 0, 4);
    p.deselect();
    p.tick(1);
    p.tick(2);
    p.select(2);
    p.tick(3);
    p.tick(4);
    let executed = p.burst_time - p.time_remaining;
    assert_eq!(p.turnaround_time, p.wait_time + executed);
}
