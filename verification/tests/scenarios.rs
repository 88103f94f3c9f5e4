use schedsim::cpu::CPU;
use schedsim::cpu::Event;
use schedsim::fcfs::FCFS;
use schedsim::process::Process;
use schedsim::real_sjf::RealSjf;
use schedsim::rr::RR;
use schedsim::schedule::ScheduleModel;
use schedsim::schedule::SchedulerKind;
use schedsim::sjf::SJF;

fn proc(name: &str, arrival: i32, burst: i32) -> Process {
    Process::new(name.to_string(), arrival, burst)
}

fn arrived(time: i32, name: &str) -> Event {
    Event::Arrived { time, name: name.to_string() }
}

fn selected(time: i32, name: &str, burst: i32) -> Event {
    Event::Selected { time, name: name.to_string(), burst }
}

fn finished(time: i32, name: &str) -> Event {
    Event::Finished { time, name: name.to_string() }
}

fn idle(time: i32) -> Event {
    Event::Idle { time }
}

#[test]
fn fcfs_two_processes() {
    let model = ScheduleModel {
        number_of_processes: 2,
        time_units: 8,
        scheduler: SchedulerKind::Fcfs(FCFS::default()),
        process_list: vec![proc("P1", 0, 5), proc("P2", 1, 3)],
    };
    let mut cpu = CPU::default();
    let out = cpu.run(model);

    let p1 = &out.process_list[0];
    assert_eq!(p1.wait_time, 0);
    assert_eq!(p1.turnaround_time, 5);
    assert_eq!(p1.response_time, 0);
    assert_eq!(p1.time_remaining, 0);
    assert_eq!(p1.finish_time, Some(5));

    let p2 = &out.process_list[1];
    assert_eq!(p2.wait_time, 4);
    assert_eq!(p2.turnaround_time, 7);
    assert_eq!(p2.response_time, 4);
    assert_eq!(p2.time_remaining, 0);
    assert_eq!(p2.finish_time, Some(8));

    assert_eq!(
        cpu.output,
        vec![
            arrived(0, "P1"),
            selected(0, "P1", 5),
            arrived(1, "P2"),
            finished(5, "P1"),
            selected(5, "P2", 3),
            finished(8, "P2"),
            idle(8),
        ]
    );
}

#[test]
fn preemptive_sjf_preemption() {
    let model = ScheduleModel {
        number_of_processes: 2,
        time_units: 8,
        scheduler: SchedulerKind::Sjf(SJF::default()),
        process_list: vec![proc("P1", 0, 6), proc("P2", 2, 2)],
    };
    let mut cpu = CPU::default();
    let out = cpu.run(model);

    // P2 preempts P1 at time 2 and finishes at time 4; P1 resumes and
    // finishes at time 8.
    let p1 = &out.process_list[0];
    assert_eq!(p1.finish_time, Some(8));
    assert_eq!(p1.turnaround_time, 8);
    assert_eq!(p1.wait_time, 2);
    assert_eq!(p1.response_time, 0);

    let p2 = &out.process_list[1];
    assert_eq!(p2.finish_time, Some(4));
    assert_eq!(p2.turnaround_time, 2);
    assert_eq!(p2.wait_time, 0);
    assert_eq!(p2.response_time, 0);

    assert_eq!(
        cpu.output,
        vec![
            arrived(0, "P1"),
            selected(0, "P1", 6),
            arrived(2, "P2"),
            selected(2, "P2", 2),
            finished(4, "P2"),
            selected(4, "P1", 4),
            finished(8, "P1"),
            idle(8),
        ]
    );
}

#[test]
fn round_robin_quantum_two() {
    let model = ScheduleModel {
        number_of_processes: 2,
        time_units: 6,
        scheduler: SchedulerKind::Rr(RR::new(2)),
        process_list: vec![proc("P1", 0, 3), proc("P2", 0, 3)],
    };
    let mut cpu = CPU::default();
    let out = cpu.run(model);

    // Alternation every two ticks; both finish by time 6.
    let p1 = &out.process_list[0];
    assert_eq!(p1.finish_time, Some(5));
    assert_eq!(p1.turnaround_time, 5);
    assert_eq!(p1.wait_time, 2);
    assert_eq!(p1.response_time, 0);

    let p2 = &out.process_list[1];
    assert_eq!(p2.finish_time, Some(6));
    assert_eq!(p2.turnaround_time, 6);
    assert_eq!(p2.wait_time, 3);
    assert_eq!(p2.response_time, 2);

    assert_eq!(
        cpu.output,
        vec![
            arrived(0, "P1"),
            arrived(0, "P2"),
            selected(0, "P1", 3),
            selected(2, "P2", 3),
            selected(4, "P1", 1),
            finished(5, "P1"),
            selected(5, "P2", 1),
            finished(6, "P2"),
            idle(6),
        ]
    );
}

#[test]
fn run_too_short_leaves_unfinished() {
    let model = ScheduleModel {
        number_of_processes: 1,
        time_units: 3,
        scheduler: SchedulerKind::Fcfs(FCFS::default()),
        process_list: vec![proc("P1", 0, 10)],
    };
    let mut cpu = CPU::default();
    let out = cpu.run(model);

    let p1 = &out.process_list[0];
    assert!(p1.time_remaining > 0);
    assert_eq!(p1.time_remaining, 7);
    assert_eq!(p1.finish_time, None);
    assert_eq!(cpu.reports.len(), 1);
    assert!(!cpu.reports[0].finished);
}

#[test]
fn same_workload_twice_same_outcome() {
    let mut logs = Vec::new();
    let mut metrics = Vec::new();
    for _ in 0..2 {
        let model = ScheduleModel {
            number_of_processes: 3,
            time_units: 12,
            scheduler: SchedulerKind::Sjf(SJF::default()),
            process_list: vec![proc("A", 0, 4), proc("B", 1, 2), proc("C", 2, 5)],
        };
        let mut cpu = CPU::default();
        let out = cpu.run(model);
        logs.push(cpu.output);
        metrics.push(
            out.process_list
                .iter()
                .map(|p| (p.wait_time, p.turnaround_time, p.response_time, p.finish_time))
                .collect::<Vec<_>>(),
        );
    }
    assert_eq!(logs[0], logs[1]);
    assert_eq!(metrics[0], metrics[1]);
}

#[test]
fn real_sjf_first_arrival_then_shortest() {
    let model = ScheduleModel {
        number_of_processes: 3,
        time_units: 12,
        scheduler: SchedulerKind::RealSjf(RealSjf::default()),
        process_list: vec![proc("P1", 0, 5), proc("P2", 1, 2), proc("P3", 1, 4)],
    };
    let mut cpu = CPU::default();
    let out = cpu.run(model);

    // P1 is dispatched as the sole arrival and runs to completion; then
    // the shortest initial burst (P2) runs, then P3.
    assert_eq!(out.process_list[0].finish_time, Some(5));
    assert_eq!(out.process_list[1].finish_time, Some(7));
    assert_eq!(out.process_list[2].finish_time, Some(11));
}

#[test]
fn idle_until_first_arrival() {
    let model = ScheduleModel {
        number_of_processes: 1,
        time_units: 4,
        scheduler: SchedulerKind::Fcfs(FCFS::default()),
        process_list: vec![proc("P1", 2, 1)],
    };
    let mut cpu = CPU::default();
    let out = cpu.run(model);

    assert_eq!(
        cpu.output,
        vec![
            idle(0),
            idle(1),
            arrived(2, "P1"),
            selected(2, "P1", 1),
            finished(3, "P1"),
            idle(3),
            idle(4),
        ]
    );
    assert_eq!(out.process_list[0].finish_time, Some(3));
    assert_eq!(out.process_list[0].turnaround_time, 1);
}

#[test]
fn fcfs_same_tick_arrivals_keep_first_in_list() {
    let model = ScheduleModel {
        number_of_processes: 2,
        time_units: 5,
        scheduler: SchedulerKind::Fcfs(FCFS::default()),
        process_list: vec![proc("P1", 0, 2), proc("P2", 0, 2)],
    };
    let mut cpu = CPU::default();
    let out = cpu.run(model);

    // On an arrival-time tie the job dispatched first stays dispatched.
    assert_eq!(out.process_list[0].finish_time, Some(2));
    assert_eq!(out.process_list[1].finish_time, Some(4));
    assert_eq!(out.process_list[0].response_time, 0);
    assert_eq!(out.process_list[1].response_time, 2);
}

#[test]
fn reports_follow_list_order() {
    let model = ScheduleModel {
        number_of_processes: 2,
        time_units: 8,
        scheduler: SchedulerKind::Fcfs(FCFS::default()),
        process_list: vec![proc("P1", 0, 5), proc("P2", 1, 3)],
    };
    let mut cpu = CPU::default();
    cpu.run(model);

    assert_eq!(cpu.reports.len(), 2);
    assert_eq!(cpu.reports[0].name, "P1");
    assert!(cpu.reports[0].finished);
    assert_eq!(cpu.reports[0].wait_time, 0);
    assert_eq!(cpu.reports[0].turnaround_time, 5);
    assert_eq!(cpu.reports[0].response_time, 0);
    assert_eq!(cpu.reports[1].name, "P2");
    assert!(cpu.reports[1].finished);
    assert_eq!(cpu.reports[1].wait_time, 4);
    assert_eq!(cpu.reports[1].turnaround_time, 7);
    assert_eq!(cpu.reports[1].response_time, 4);
}
