//! The per-tick simulation engine.  It owns the event log and drives,
//! for every simulated time `t`, the fixed sequence: tick every arrived
//! process, refresh the policy, handle finishes, handle arrivals, let
//! the policy make its dispatch decision, then log selections or an
//! idle tick.  The whole run is pinned down by `spec_sim`, so one
//! workload has exactly one possible log and one set of final metrics.

use vstd::prelude::*;

use crate::process::Process;
use crate::schedule::ScheduleModel;
use crate::schedule::SchedulerKind;
use crate::schedule::SchedulerKindV;
use crate::scheduler::Scheduler;

verus! {

/// One entry of the ordered event log.
#[derive(PartialEq, Eq, Debug)]
pub enum Event {
    Arrived { time: i32, name: String },
    Selected { time: i32, name: String, burst: i32 },
    Finished { time: i32, name: String },
    Idle { time: i32 },
}

/// The final line reported for one process: its metrics if it finished,
/// or the bare fact that it did not.
#[derive(PartialEq, Eq, Debug)]
pub struct ProcessReport {
    pub name: String,
    pub finished: bool,
    pub wait_time: i32,
    pub turnaround_time: i32,
    pub response_time: i32,
}

/// The simulation engine: an ordered event log plus the final
/// per-process report lines, both filled by `run`.
pub struct CPU {
    pub output: Vec<Event>,
    pub reports: Vec<ProcessReport>,
}

/// Every process in the sequence is well-formed.
pub open spec fn all_valid(ps: Seq<Process>) -> bool {
    forall|i: int| 0 <= i < ps.len() ==> (#[trigger] ps[i]).valid()
}

/// Step 1 of a tick: every process that had arrived by `t - 1` is
/// advanced by the unit ending at `t`, in list order over the first `n`.
pub open spec fn spec_tick_phase(ps: Seq<Process>, t: i32, n: int) -> Seq<Process>
    decreases n,
{
    if n <= 0 {
        ps
    } else {
        let ps1 = spec_tick_phase(ps, t, n - 1);
        let p = ps1[n - 1];
        if p.arrival_time <= t - 1 {
            ps1.update(n - 1, p.spec_tick(t))
        } else {
            ps1
        }
    }
}

/// Step 2 of a tick: the policy observes every arrived, unfinished
/// process, in list order over the first `n`.
pub open spec fn spec_on_tick_phase(s: SchedulerKindV, ps: Seq<Process>, t: i32, n: int) -> (
    SchedulerKindV,
    Seq<Process>,
)
    decreases n,
{
    if n <= 0 {
        (s, ps)
    } else {
        let r = spec_on_tick_phase(s, ps, t, n - 1);
        let p = r.1[n - 1];
        if !p.spec_finished() && p.arrival_time <= t - 1 {
            let q = SchedulerKind::spec_on_tick(r.0, p, t);
            (q.0, r.1.update(n - 1, q.1))
        } else {
            r
        }
    }
}

/// Step 3 of a tick: every process whose finish timestamp equals `t` is
/// logged as finished and dropped from the policy's bookkeeping.
pub open spec fn spec_finish_phase(s: SchedulerKindV, ps: Seq<Process>, t: i32, n: int) -> (
    SchedulerKindV,
    Seq<Event>,
)
    decreases n,
{
    if n <= 0 {
        (s, Seq::empty())
    } else {
        let r = spec_finish_phase(s, ps, t, n - 1);
        let p = ps[n - 1];
        if p.spec_finished() && p.finish_time == Some(t) {
            (
                SchedulerKind::spec_on_finish(r.0, p, t),
                r.1.push(Event::Finished { time: t, name: p.name }),
            )
        } else {
            r
        }
    }
}

/// Step 4 of a tick: every process whose arrival time equals `t` is set
/// Ready, logged as arrived, and handed to the policy.
pub open spec fn spec_arrival_phase(s: SchedulerKindV, ps: Seq<Process>, t: i32, n: int) -> (
    SchedulerKindV,
    Seq<Process>,
    Seq<Event>,
)
    decreases n,
{
    if n <= 0 {
        (s, ps, Seq::empty())
    } else {
        let r = spec_arrival_phase(s, ps, t, n - 1);
        let p = r.1[n - 1];
        if p.arrival_time == t {
            let q = SchedulerKind::spec_on_arrive(r.0, p.spec_deselect(), t);
            (q.0, r.1.update(n - 1, q.1), r.2.push(Event::Arrived { time: t, name: p.name }))
        } else {
            r
        }
    }
}

/// Step 5 of a tick: the policy makes the dispatch decision governing
/// the unit that begins now, for every arrived, unfinished process.
pub open spec fn spec_pre_tick_phase(s: SchedulerKindV, ps: Seq<Process>, t: i32, n: int) -> (
    SchedulerKindV,
    Seq<Process>,
)
    decreases n,
{
    if n <= 0 {
        (s, ps)
    } else {
        let r = spec_pre_tick_phase(s, ps, t, n - 1);
        let p = r.1[n - 1];
        if !p.spec_finished() && p.arrival_time <= t {
            let q = SchedulerKind::spec_pre_tick(r.0, p, t);
            (q.0, r.1.update(n - 1, q.1))
        } else {
            r
        }
    }
}

/// Step 6 of a tick: one "selected" event for every process whose last
/// selection timestamp equals `t`.
pub open spec fn spec_selection_events(ps: Seq<Process>, t: i32, n: int) -> Seq<Event>
    decreases n,
{
    if n <= 0 {
        Seq::empty()
    } else {
        let r = spec_selection_events(ps, t, n - 1);
        let p = ps[n - 1];
        if p.last_selection_time == Some(t) {
            r.push(Event::Selected { time: t, name: p.name, burst: p.time_remaining })
        } else {
            r
        }
    }
}

/// An "idle" event when no process is dispatched at the end of a tick.
pub open spec fn spec_idle_events(s: SchedulerKindV, t: i32) -> Seq<Event> {
    if SchedulerKind::spec_selected(s) is None {
        seq![Event::Idle { time: t }]
    } else {
        Seq::empty()
    }
}

/// One whole tick `t`, in the fixed six-step order.
pub open spec fn spec_step(s: SchedulerKindV, ps: Seq<Process>, t: i32) -> (
    SchedulerKindV,
    Seq<Process>,
    Seq<Event>,
) {
    let n = ps.len() as int;
    let ps1 = spec_tick_phase(ps, t, n);
    let r2 = spec_on_tick_phase(s, ps1, t, n);
    let r3 = spec_finish_phase(r2.0, r2.1, t, n);
    let r4 = spec_arrival_phase(r3.0, r2.1, t, n);
    let r5 = spec_pre_tick_phase(r4.0, r4.1, t, n);
    (r5.0, r5.1, r3.1 + r4.2 + spec_selection_events(r5.1, t, n) + spec_idle_events(r5.0, t))
}

/// The state and accumulated event log after the first `t` ticks
/// (ticks `0` to `t - 1`) of a run that starts from `(s, ps)`.
pub open spec fn spec_sim(s: SchedulerKindV, ps: Seq<Process>, t: int) -> (
    SchedulerKindV,
    Seq<Process>,
    Seq<Event>,
)
    decreases t,
{
    if t <= 0 {
        (s, ps, Seq::empty())
    } else {
        let r = spec_sim(s, ps, t - 1);
        let st = spec_step(r.0, r.1, (t - 1) as i32);
        (st.0, st.1, r.2 + st.2)
    }
}

/// The report line for one process.
pub open spec fn spec_report_of(p: Process) -> ProcessReport {
    ProcessReport {
        name: p.name,
        finished: p.time_remaining == 0,
        wait_time: p.wait_time,
        turnaround_time: p.turnaround_time,
        response_time: p.response_time,
    }
}

/// The report lines for the first `n` processes, in list order.
pub open spec fn spec_reports(ps: Seq<Process>, n: int) -> Seq<ProcessReport>
    decreases n,
{
    if n <= 0 {
        Seq::empty()
    } else {
        spec_reports(ps, n - 1).push(spec_report_of(ps[n - 1]))
    }
}

/// A policy callback other than the tick itself never touches a
/// process's identity, times or metrics: it can only dispatch the
/// process or set it Ready.
pub proof fn lemma_callbacks_keep_metrics(v: SchedulerKindV, p: Process, t: i32)
    ensures
        ({
            let a = SchedulerKind::spec_on_arrive(v, p, t).1;
            let b = SchedulerKind::spec_pre_tick(v, p, t).1;
            let c = SchedulerKind::spec_on_tick(v, p, t).1;
            &&& a.turnaround_time == p.turnaround_time && a.arrival_time == p.arrival_time
            &&& b.turnaround_time == p.turnaround_time && b.arrival_time == p.arrival_time
            &&& c.turnaround_time == p.turnaround_time && c.arrival_time == p.arrival_time
        }),
{
}

impl CPU {
    fn tick_proceses(&mut self, processes: &mut Vec<Process>, cur_time: i32)
        requires
            0 <= cur_time < i32::MAX,
            all_valid(old(processes)@),
            forall|i: int|
                0 <= i < old(processes)@.len() ==> (#[trigger] old(
                    processes,
                )@[i]).turnaround_time <= cur_time,
        ensures
            final(processes)@ == spec_tick_phase(
                old(processes)@,
                cur_time,
                old(processes)@.len() as int,
            ),
            final(processes)@.len() == old(processes)@.len(),
            all_valid(final(processes)@),
            forall|i: int|
                0 <= i < final(processes)@.len() ==> (#[trigger] final(processes)@[i]).turnaround_time <= cur_time + 1,
            forall|i: int|
                0 <= i < final(processes)@.len() && old(processes)@[i].arrival_time >= cur_time
                    ==> final(processes)@[i] == old(processes)@[i],
            forall|i: int|
                0 <= i < final(processes)@.len() ==> (#[trigger] final(processes)@[i]).arrival_time == old(processes)@[i].arrival_time,
            *final(self) == *old(self),
    {
        let n = processes.len();
        let mut k: usize = 0;
        while k < n
            invariant
                0 <= cur_time < i32::MAX,
                k <= n,
                n == processes@.len(),
                processes@.len() == old(processes)@.len(),
                processes@ == spec_tick_phase(old(processes)@, cur_time, k as int),
                forall|i: int| k <= i < n ==> processes@[i] == old(processes)@[i],
                all_valid(processes@),
                forall|i: int|
                    0 <= i < processes@.len() ==> (#[trigger] processes@[i]).turnaround_time
                        <= cur_time + 1,
                forall|i: int|
                    0 <= i < k && old(processes)@[i].arrival_time >= cur_time ==> processes@[i]
                        == old(processes)@[i],
                forall|i: int|
                    0 <= i < processes@.len() ==> (#[trigger] processes@[i]).arrival_time == old(
                        processes,
                    )@[i].arrival_time,
                forall|i: int|
                    k <= i < processes@.len() ==> (#[trigger] processes@[i]).turnaround_time
                        <= cur_time,
            decreases n - k,
        {
            if processes[k].arrival_time <= cur_time - 1 {
                let p = &mut processes[k];
                p.tick(cur_time);
            }
            k = k + 1;
        }
    }

    fn handle_on_tick(
        &mut self,
        processes: &mut Vec<Process>,
        scheduler: &mut SchedulerKind,
        cur_time: i32,
    )
        requires
            0 <= cur_time,
            all_valid(old(processes)@),
            SchedulerKind::wf(old(scheduler)@),
        ensures
            (final(scheduler)@, final(processes)@) == spec_on_tick_phase(
                old(scheduler)@,
                old(processes)@,
                cur_time,
                old(processes)@.len() as int,
            ),
            final(processes)@.len() == old(processes)@.len(),
            all_valid(final(processes)@),
            SchedulerKind::wf(final(scheduler)@),
            forall|i: int|
                0 <= i < final(processes)@.len() ==> (#[trigger] final(processes)@[i]).turnaround_time == old(processes)@[i].turnaround_time && final(processes)@[i].arrival_time == old(processes)@[i].arrival_time,
            forall|i: int|
                0 <= i < final(processes)@.len() && old(processes)@[i].arrival_time >= cur_time
                    ==> final(processes)@[i] == old(processes)@[i],
            *final(self) == *old(self),
    {
        let n = processes.len();
        let mut k: usize = 0;
        while k < n
            invariant
                0 <= cur_time,
                k <= n,
                n == processes@.len(),
                processes@.len() == old(processes)@.len(),
                (scheduler@, processes@) == spec_on_tick_phase(
                    old(scheduler)@,
                    old(processes)@,
                    cur_time,
                    k as int,
                ),
                forall|i: int| k <= i < n ==> processes@[i] == old(processes)@[i],
                all_valid(processes@),
                SchedulerKind::wf(scheduler@),
                forall|i: int|
                    0 <= i < processes@.len() ==> (#[trigger] processes@[i]).turnaround_time
                        == old(processes)@[i].turnaround_time && processes@[i].arrival_time == old(
                        processes,
                    )@[i].arrival_time,
                forall|i: int|
                    0 <= i < k && old(processes)@[i].arrival_time >= cur_time ==> processes@[i]
                        == old(processes)@[i],
            decreases n - k,
        {
            let unfinished = processes[k].time_remaining != 0;
            let arrived_prev = processes[k].arrival_time <= cur_time - 1;
            if unfinished && arrived_prev {
                proof {
                    lemma_callbacks_keep_metrics(scheduler@, processes@[k as int], cur_time);
                }
                let p = &mut processes[k];
                scheduler.on_tick(p, cur_time);
            }
            k = k + 1;
        }
    }

    fn handle_finishes(
        &mut self,
        processes: &mut Vec<Process>,
        scheduler: &mut SchedulerKind,
        cur_time: i32,
    )
        requires
            SchedulerKind::wf(old(scheduler)@),
        ensures
            final(processes)@ == old(processes)@,
            ({
                let r = spec_finish_phase(
                    old(scheduler)@,
                    old(processes)@,
                    cur_time,
                    old(processes)@.len() as int,
                );
                final(scheduler)@ == r.0 && final(self).output@ == old(self).output@ + r.1
            }),
            final(self).reports@ == old(self).reports@,
            SchedulerKind::wf(final(scheduler)@),
    {
        let n = processes.len();
        let mut k: usize = 0;
        while k < n
            invariant
                k <= n,
                n == processes@.len(),
                processes@ == old(processes)@,
                ({
                    let r = spec_finish_phase(
                        old(scheduler)@,
                        old(processes)@,
                        cur_time,
                        k as int,
                    );
                    scheduler@ == r.0 && self.output@ == old(self).output@ + r.1
                }),
                self.reports@ == old(self).reports@,
                SchedulerKind::wf(scheduler@),
            decreases n - k,
        {
            let finished_now = processes[k].time_remaining == 0 && (match processes[
                k
            ].finish_time {
                Some(ft) => ft == cur_time,
                None => false,
            });
            if finished_now {
                self.output.push(
                    Event::Finished { time: cur_time, name: processes[k].name.clone() },
                );
                let p = &processes[k];
                scheduler.on_finish(p, cur_time);
            }
            k = k + 1;
        }
    }

    fn handle_arrivals(
        &mut self,
        processes: &mut Vec<Process>,
        scheduler: &mut SchedulerKind,
        cur_time: i32,
    )
        requires
            all_valid(old(processes)@),
            SchedulerKind::wf(old(scheduler)@),
            forall|i: int|
                0 <= i < old(processes)@.len() && old(processes)@[i].arrival_time == cur_time
                    ==> !(#[trigger] old(processes)@[i]).spec_finished(),
        ensures
            ({
                let r = spec_arrival_phase(
                    old(scheduler)@,
                    old(processes)@,
                    cur_time,
                    old(processes)@.len() as int,
                );
                final(scheduler)@ == r.0 && final(processes)@ == r.1 && final(self).output@
                    == old(self).output@ + r.2
            }),
            final(processes)@.len() == old(processes)@.len(),
            all_valid(final(processes)@),
            SchedulerKind::wf(final(scheduler)@),
            forall|i: int|
                0 <= i < final(processes)@.len() ==> (#[trigger] final(processes)@[i]).turnaround_time == old(processes)@[i].turnaround_time && final(processes)@[i].arrival_time == old(processes)@[i].arrival_time,
            forall|i: int|
                0 <= i < final(processes)@.len() && old(processes)@[i].arrival_time > cur_time
                    ==> final(processes)@[i] == old(processes)@[i],
            final(self).reports@ == old(self).reports@,
    {
        let n = processes.len();
        let mut k: usize = 0;
        while k < n
            invariant
                k <= n,
                n == processes@.len(),
                processes@.len() == old(processes)@.len(),
                ({
                    let r = spec_arrival_phase(
                        old(scheduler)@,
                        old(processes)@,
                        cur_time,
                        k as int,
                    );
                    scheduler@ == r.0 && processes@ == r.1 && self.output@ == old(self).output@
                        + r.2
                }),
                forall|i: int| k <= i < n ==> processes@[i] == old(processes)@[i],
                all_valid(processes@),
                SchedulerKind::wf(scheduler@),
                forall|i: int|
                    0 <= i < old(processes)@.len() && old(processes)@[i].arrival_time == cur_time
                        ==> !(#[trigger] old(processes)@[i]).spec_finished(),
                forall|i: int|
                    0 <= i < processes@.len() ==> (#[trigger] processes@[i]).turnaround_time == old(
                        processes,
                    )@[i].turnaround_time && processes@[i].arrival_time == old(
                        processes,
                    )@[i].arrival_time,
                forall|i: int|
                    0 <= i < k && old(processes)@[i].arrival_time > cur_time ==> processes@[i]
                        == old(processes)@[i],
                self.reports@ == old(self).reports@,
            decreases n - k,
        {
            if processes[k].arrival_time == cur_time {
                proof {
                    lemma_callbacks_keep_metrics(
                        scheduler@,
                        processes@[k as int].spec_deselect(),
                        cur_time,
                    );
                }
                self.output.push(Event::Arrived { time: cur_time, name: processes[k].name.clone() });
                let p = &mut processes[k];
                p.deselect();
                scheduler.on_arrive(p, cur_time);
            }
            k = k + 1;
        }
    }

    fn handle_pre_tick(
        &mut self,
        processes: &mut Vec<Process>,
        scheduler: &mut SchedulerKind,
        cur_time: i32,
    )
        requires
            all_valid(old(processes)@),
            SchedulerKind::wf(old(scheduler)@),
        ensures
            (final(scheduler)@, final(processes)@) == spec_pre_tick_phase(
                old(scheduler)@,
                old(processes)@,
                cur_time,
                old(processes)@.len() as int,
            ),
            final(processes)@.len() == old(processes)@.len(),
            all_valid(final(processes)@),
            SchedulerKind::wf(final(scheduler)@),
            forall|i: int|
                0 <= i < final(processes)@.len() ==> (#[trigger] final(processes)@[i]).turnaround_time == old(processes)@[i].turnaround_time && final(processes)@[i].arrival_time == old(processes)@[i].arrival_time,
            forall|i: int|
                0 <= i < final(processes)@.len() && old(processes)@[i].arrival_time > cur_time
                    ==> final(processes)@[i] == old(processes)@[i],
            *final(self) == *old(self),
    {
        let n = processes.len();
        let mut k: usize = 0;
        while k < n
            invariant
                k <= n,
                n == processes@.len(),
                processes@.len() == old(processes)@.len(),
                (scheduler@, processes@) == spec_pre_tick_phase(
                    old(scheduler)@,
                    old(processes)@,
                    cur_time,
                    k as int,
                ),
                forall|i: int| k <= i < n ==> processes@[i] == old(processes)@[i],
                all_valid(processes@),
                SchedulerKind::wf(scheduler@),
                forall|i: int|
                    0 <= i < processes@.len() ==> (#[trigger] processes@[i]).turnaround_time == old(
                        processes,
                    )@[i].turnaround_time && processes@[i].arrival_time == old(
                        processes,
                    )@[i].arrival_time,
                forall|i: int|
                    0 <= i < k && old(processes)@[i].arrival_time > cur_time ==> processes@[i]
                        == old(processes)@[i],
            decreases n - k,
        {
            let unfinished = processes[k].time_remaining != 0;
            let arrived_now = processes[k].arrival_time <= cur_time;
            if unfinished && arrived_now {
                proof {
                    lemma_callbacks_keep_metrics(scheduler@, processes@[k as int], cur_time);
                }
                let p = &mut processes[k];
                scheduler.pre_tick(p, cur_time);
            }
            k = k + 1;
        }
    }

    fn handle_selection_output(
        &mut self,
        processes: &Vec<Process>,
        scheduler: &SchedulerKind,
        cur_time: i32,
    )
        ensures
            final(self).output@ == old(self).output@ + spec_selection_events(
                processes@,
                cur_time,
                processes@.len() as int,
            ) + spec_idle_events(scheduler@, cur_time),
            final(self).reports@ == old(self).reports@,
    {
        let n = processes.len();
        let mut k: usize = 0;
        while k < n
            invariant
                k <= n,
                n == processes@.len(),
                self.output@ == old(self).output@ + spec_selection_events(
                    processes@,
                    cur_time,
                    k as int,
                ),
                self.reports@ == old(self).reports@,
            decreases n - k,
        {
            let selected_now = match processes[k].last_selection_time {
                Some(ts) => ts == cur_time,
                None => false,
            };
            if selected_now {
                self.output.push(
                    Event::Selected {
                        time: cur_time,
                        name: processes[k].name.clone(),
                        burst: processes[k].time_remaining,
                    },
                );
            }
            k = k + 1;
        }
        if scheduler.selected_process_name().is_none() {
            self.output.push(Event::Idle { time: cur_time });
        }
    }

    fn handle_status_output(&mut self, processes: &Vec<Process>)
        ensures
            final(self).reports@ == old(self).reports@ + spec_reports(
                processes@,
                processes@.len() as int,
            ),
            final(self).output@ == old(self).output@,
    {
        let n = processes.len();
        let mut k: usize = 0;
        while k < n
            invariant
                k <= n,
                n == processes@.len(),
                self.reports@ == old(self).reports@ + spec_reports(processes@, k as int),
                self.output@ == old(self).output@,
            decreases n - k,
        {
            let finished = processes[k].time_remaining == 0;
            self.reports.push(
                ProcessReport {
                    name: processes[k].name.clone(),
                    finished,
                    wait_time: processes[k].wait_time,
                    turnaround_time: processes[k].turnaround_time,
                    response_time: processes[k].response_time,
                },
            );
            k = k + 1;
        }
    }

    /// Runs the whole simulation: ticks `0` through `time_units`, each
    /// in the fixed six-step order, then the final report lines.  The
    /// event log and the final processes are exactly those given by
    /// `spec_sim`, so a workload determines its outcome completely.
    pub fn run(&mut self, model: ScheduleModel) -> (r: ScheduleModel)
        requires
            model.wf(),
        ensures
            ({
                let sim = spec_sim(
                    model.scheduler@,
                    model.process_list@,
                    model.time_units + 1,
                );
                &&& final(self).output@ == old(self).output@ + sim.2
                &&& final(self).reports@ == old(self).reports@ + spec_reports(
                    sim.1,
                    sim.1.len() as int,
                )
                &&& r.scheduler@ == sim.0
                &&& r.process_list@ == sim.1
                &&& r.number_of_processes == model.number_of_processes
                &&& r.time_units == model.time_units
                &&& all_valid(r.process_list@)
            }),
    {
        let mut model = model;
        let ghost m0 = model;
        let time_units = model.time_units;
        let mut t: i32 = 0;
        while t <= time_units
            invariant
                0 <= t <= time_units + 1,
                time_units == m0.time_units,
                m0.wf(),
                model.number_of_processes == m0.number_of_processes,
                model.time_units == m0.time_units,
                ({
                    let sim = spec_sim(m0.scheduler@, m0.process_list@, t as int);
                    &&& model.scheduler@ == sim.0
                    &&& model.process_list@ == sim.1
                    &&& self.output@ == old(self).output@ + sim.2
                }),
                self.reports@ == old(self).reports@,
                model.process_list@.len() == m0.process_list@.len(),
                all_valid(model.process_list@),
                SchedulerKind::wf(model.scheduler@),
                forall|i: int|
                    0 <= i < model.process_list@.len() ==> (#[trigger] model.process_list@[
                        i
                    ]).turnaround_time <= t,
                forall|i: int|
                    0 <= i < model.process_list@.len() && model.process_list@[i].arrival_time >= t
                        ==> (#[trigger] model.process_list@[i]) == m0.process_list@[i],
            decreases time_units + 1 - t,
        {
            let ghost sim_before = spec_sim(m0.scheduler@, m0.process_list@, t as int);
            let ghost s_in = model.scheduler@;
            let ghost ps_in = model.process_list@;
            let ghost out_in = self.output@;
            let ghost n = ps_in.len() as int;

            self.tick_proceses(&mut model.process_list, t);
            let ghost ps1 = model.process_list@;
            self.handle_on_tick(&mut model.process_list, &mut model.scheduler, t);
            let ghost r2 = (model.scheduler@, model.process_list@);
            self.handle_finishes(&mut model.process_list, &mut model.scheduler, t);
            self.handle_arrivals(&mut model.process_list, &mut model.scheduler, t);
            let ghost r4 = (model.scheduler@, model.process_list@);
            self.handle_pre_tick(&mut model.process_list, &mut model.scheduler, t);
            let ghost r5 = (model.scheduler@, model.process_list@);
            self.handle_selection_output(&model.process_list, &model.scheduler, t);

            proof {
                let st = spec_step(sim_before.0, sim_before.1, t);
                assert(ps1 == spec_tick_phase(ps_in, t, n));
                assert(r2 == spec_on_tick_phase(s_in, ps1, t, n));
                assert((r5.0, r5.1) == (st.0, st.1));
                let r3 = spec_finish_phase(r2.0, r2.1, t, n);
                let r4s = spec_arrival_phase(r3.0, r2.1, t, n);
                assert(self.output@ == out_in + r3.1 + r4s.2 + spec_selection_events(
                    r5.1,
                    t,
                    n,
                ) + spec_idle_events(r5.0, t));
                assert(st.2 == r3.1 + r4s.2 + spec_selection_events(r5.1, t, n)
                    + spec_idle_events(r5.0, t));
                assert(self.output@ =~= old(self).output@ + (sim_before.2 + st.2));
                let sim_after = spec_sim(m0.scheduler@, m0.process_list@, t as int + 1);
                assert(sim_after == (st.0, st.1, sim_before.2 + st.2));
                assert forall|i: int|
                    0 <= i < model.process_list@.len() && model.process_list@[i].arrival_time >= t
                        + 1 implies #[trigger] model.process_list@[i]
                    == m0.process_list@[i] by {
                    assert(r5.1[i].arrival_time == r4.1[i].arrival_time);
                    assert(r4.1[i].arrival_time == r2.1[i].arrival_time);
                    assert(r2.1[i].arrival_time == ps1[i].arrival_time);
                    assert(ps1[i].arrival_time == ps_in[i].arrival_time);
                    assert(ps_in[i] == m0.process_list@[i]);
                    assert(ps1[i] == ps_in[i]);
                    assert(r2.1[i] == ps1[i]);
                    assert(r4.1[i] == r2.1[i]);
                    assert(r5.1[i] == r4.1[i]);
                };
            }
            t = t + 1;
        }
        self.handle_status_output(&model.process_list);
        model
    }
}

impl Default for CPU {
    /// An engine with an empty event log and no report lines.
    fn default() -> (r: CPU)
        ensures
            r.output@ == Seq::<Event>::empty(),
            r.reports@ == Seq::<ProcessReport>::empty(),
    {
        CPU { output: Vec::new(), reports: Vec::new() }
    }
}

} // verus!
