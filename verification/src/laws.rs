//! Run-wide laws of the simulation, proved over the specification
//! functions that `CPU::run` is pinned to: the simulation is a function
//! of the workload alone, and under every policy at most one process
//! occupies the CPU at any tick boundary.

use vstd::prelude::*;

use crate::cpu::spec_arrival_phase;
use crate::cpu::spec_finish_phase;
use crate::cpu::spec_on_tick_phase;
use crate::cpu::spec_pre_tick_phase;
use crate::cpu::spec_sim;
use crate::cpu::spec_step;
use crate::cpu::spec_tick_phase;
use crate::fcfs::fcfs_earliest_index;
use crate::fcfs::fcfs_find_name;
use crate::fcfs::lemma_fcfs_earliest_index_bounds;
use crate::fcfs::lemma_fcfs_find_name_at;
use crate::fcfs::lemma_fcfs_find_name_mono;
use crate::fcfs::lemma_fcfs_find_name_props;
use crate::fcfs::lemma_fcfs_find_name_push;
use crate::fcfs::FcfsProcess;
use crate::fcfs::FcfsV;
use crate::fcfs::FCFS;
use crate::process::Process;
use crate::real_sjf::lemma_rsjf_find_name_at;
use crate::real_sjf::lemma_rsjf_find_name_mono;
use crate::real_sjf::lemma_rsjf_find_name_props;
use crate::real_sjf::lemma_rsjf_find_name_push;
use crate::real_sjf::lemma_rsjf_find_name_update;
use crate::real_sjf::lemma_rsjf_shortest_index_bounds;
use crate::real_sjf::rsjf_find_name;
use crate::real_sjf::rsjf_shortest_index;
use crate::real_sjf::RealSjf;
use crate::real_sjf::RealSjfJob;
use crate::real_sjf::RealSjfV;
use crate::rr::RrV;
use crate::rr::RR;
use crate::schedule::ScheduleModel;
use crate::schedule::SchedulerKind;
use crate::schedule::SchedulerKindV;
use crate::scheduler::Scheduler;
use crate::sjf::lemma_sjf_find_name_at;
use crate::sjf::lemma_sjf_find_name_mono;
use crate::sjf::lemma_sjf_find_name_props;
use crate::sjf::lemma_sjf_find_name_push;
use crate::sjf::lemma_sjf_find_name_remove;
use crate::sjf::lemma_sjf_find_name_update;
use crate::sjf::lemma_sjf_shortest_index_is_min;
use crate::sjf::SjfJob;
use crate::sjf::sjf_find_name;
use crate::sjf::sjf_key_lt;
use crate::sjf::sjf_shortest_index;
use crate::sjf::SjfV;
use crate::sjf::SJF;

verus! {

/// No two processes share a name.
pub open spec fn distinct_names(ps: Seq<Process>) -> bool {
    forall|i: int, j: int|
        0 <= i < ps.len() && 0 <= j < ps.len() && i != j ==> ps[i].name@ != ps[j].name@
}

/// At most one process occupies the CPU.
pub open spec fn at_most_one_running(ps: Seq<Process>) -> bool {
    forall|i: int, j: int|
        0 <= i < ps.len() && 0 <= j < ps.len() && ps[i].spec_running() && ps[j].spec_running()
            ==> i == j
}

/// The name the policy currently deems dispatched, read as characters.
pub open spec fn sel_view(s: SchedulerKindV) -> Option<Seq<char>> {
    match SchedulerKind::spec_selected(s) {
        Some(n) => Some(n@),
        None => None,
    }
}

/// Every Running process is the one the policy deems dispatched.
pub open spec fn coupled(s: SchedulerKindV, ps: Seq<Process>) -> bool {
    forall|i: int|
        0 <= i < ps.len() && (#[trigger] ps[i]).spec_running() ==> sel_view(s) == Some(
            ps[i].name@,
        )
}

/// The structural part of process well-formedness that the coupling
/// argument needs: burst bounds and the terminal character of finishing.
pub open spec fn light_valid(p: Process) -> bool {
    &&& p.burst_time > 0
    &&& 0 <= p.time_remaining <= p.burst_time
    &&& p.spec_running() ==> p.time_remaining > 0
    &&& p.time_remaining == 0 ==> p.state is None
    &&& (p.finish_time is Some <==> p.time_remaining == 0)
}

pub open spec fn all_light_valid(ps: Seq<Process>) -> bool {
    forall|i: int| 0 <= i < ps.len() ==> light_valid(#[trigger] ps[i])
}

/// Bookkeeping facts the coupling argument needs from the policies that
/// compare arrival or burst keys on arrival: the deemed name labels a
/// live job, and (for FCFS) no recorded arrival lies in the future.
pub open spec fn sched_inv(s: SchedulerKindV, t: i32) -> bool {
    match s {
        SchedulerKindV::Fcfs(v) => {
            &&& FCFS::wf(v)
            &&& forall|k: int| 0 <= k < v.jobs.len() ==> (#[trigger] v.jobs[k]).arrival_time <= t
        },
        SchedulerKindV::RealSjf(v) => RealSjf::wf(v),
        SchedulerKindV::Sjf(v) => true,
        SchedulerKindV::Rr(v) => true,
    }
}

/// The invariant that every tick of the simulation preserves.
pub open spec fn sim_inv(s: SchedulerKindV, ps: Seq<Process>, t: i32) -> bool {
    &&& all_light_valid(ps)
    &&& distinct_names(ps)
    &&& forall|i: int|
        0 <= i < ps.len() && ps[i].arrival_time >= t ==> (#[trigger] ps[i]).fresh()
    &&& forall|i: int|
        0 <= i < ps.len() ==> (match (#[trigger] ps[i]).finish_time {
            Some(ft) => ft < t,
            None => true,
        })
    &&& coupled(s, ps)
    &&& sched_inv(s, t)
}

/// A policy state as a run starts: nothing dispatched, no live jobs.
pub open spec fn pristine(s: SchedulerKindV) -> bool {
    match s {
        SchedulerKindV::Fcfs(v) => v.jobs.len() == 0 && v.first_job is None,
        SchedulerKindV::Sjf(v) => v.jobs.len() == 0 && v.shortest_job is None,
        SchedulerKindV::RealSjf(v) => v.jobs.len() == 0 && v.shortest_job is None,
        SchedulerKindV::Rr(v) => v.selected is None,
    }
}


/// Step 1 of a tick preserves coupling: ticking only ever takes a
/// process out of the Running state, and a process whose finish
/// timestamp becomes `t` was the dispatched one.
pub proof fn lemma_tick_phase_inv(s: SchedulerKindV, ps: Seq<Process>, t: i32, n: int)
    requires
        0 <= n <= ps.len(),
        all_light_valid(ps),
        coupled(s, ps),
        forall|i: int|
            0 <= i < ps.len() ==> (match (#[trigger] ps[i]).finish_time {
                Some(ft) => ft < t,
                None => true,
            }),
    ensures
        ({
            let r = spec_tick_phase(ps, t, n);
            &&& r.len() == ps.len()
            &&& forall|i: int| n <= i < ps.len() ==> r[i] == ps[i]
            &&& forall|i: int|
                0 <= i < ps.len() ==> (#[trigger] r[i]).name@ == ps[i].name@ && r[i].arrival_time
                    == ps[i].arrival_time
            &&& all_light_valid(r)
            &&& coupled(s, r)
            &&& forall|i: int|
                0 <= i < ps.len() && (#[trigger] r[i]).finish_time == Some(t) ==> sel_view(s)
                    == Some(r[i].name@)
            &&& forall|i: int|
                0 <= i < ps.len() && ps[i].arrival_time >= t ==> #[trigger] r[i] == ps[i]
            &&& forall|i: int|
                0 <= i < ps.len() ==> (match (#[trigger] r[i]).finish_time {
                    Some(ft) => ft <= t,
                    None => true,
                })
            &&& forall|i: int|
                0 <= i < n ==> #[trigger] r[i] == (if ps[i].arrival_time <= t - 1 {
                    ps[i].spec_tick(t)
                } else {
                    ps[i]
                })
        }),
    decreases n,
{
    if n > 0 {
        lemma_tick_phase_inv(s, ps, t, n - 1);
    }
}

/// Step 2 of a tick preserves coupling and the fact that a process
/// finishing at `t` is the dispatched one: the policy can only release
/// the CPU, never hand it out, while ticks are being observed.
pub proof fn lemma_on_tick_phase_inv(s: SchedulerKindV, ps: Seq<Process>, t: i32, n: int)
    requires
        0 <= n <= ps.len(),
        all_light_valid(ps),
        distinct_names(ps),
        coupled(s, ps),
        forall|i: int|
            0 <= i < ps.len() && (#[trigger] ps[i]).finish_time == Some(t) ==> sel_view(s)
                == Some(ps[i].name@),
        sched_inv(s, t),
    ensures
        ({
            let r = spec_on_tick_phase(s, ps, t, n);
            &&& r.1.len() == ps.len()
            &&& forall|i: int| n <= i < ps.len() ==> r.1[i] == ps[i]
            &&& forall|i: int|
                0 <= i < ps.len() ==> (#[trigger] r.1[i]).name@ == ps[i].name@
                    && r.1[i].arrival_time == ps[i].arrival_time && r.1[i].finish_time
                    == ps[i].finish_time && r.1[i].time_remaining == ps[i].time_remaining
            &&& all_light_valid(r.1)
            &&& coupled(r.0, r.1)
            &&& forall|i: int|
                0 <= i < ps.len() && (#[trigger] r.1[i]).finish_time == Some(t) ==> sel_view(r.0)
                    == Some(r.1[i].name@)
            &&& forall|i: int|
                0 <= i < ps.len() && ps[i].arrival_time >= t ==> #[trigger] r.1[i] == ps[i]
            &&& forall|i: int|
                0 <= i < ps.len() && (#[trigger] ps[i]).spec_finished() ==> r.1[i] == ps[i]
            &&& (r.0 is Rr <==> s is Rr)
            &&& (r.0 is Fcfs <==> s is Fcfs)
            &&& (r.0 is Sjf <==> s is Sjf)
            &&& (r.0 is RealSjf <==> s is RealSjf)
            &&& (s is Fcfs ==> r == (s, ps))
            &&& (s is RealSjf ==> r == (s, ps))
            &&& sched_inv(r.0, t)
        }),
    decreases n,
{
    if n > 0 {
        lemma_on_tick_phase_inv(s, ps, t, n - 1);
    }
}


/// Dropping a finished job keeps FCFS's bookkeeping well-formed and its
/// recorded arrivals bounded.
proof fn lemma_fcfs_on_finish_wf(v: FcfsV, p: Process, t: i32, bound: i32)
    requires
        FCFS::wf(v),
        forall|k: int| 0 <= k < v.jobs.len() ==> (#[trigger] v.jobs[k]).arrival_time <= bound,
    ensures
        ({
            let v2 = FCFS::spec_on_finish(v, p, t);
            &&& FCFS::wf(v2)
            &&& forall|k: int|
                0 <= k < v2.jobs.len() ==> (#[trigger] v2.jobs[k]).arrival_time <= bound
        }),
{
    let len = v.jobs.len() as int;
    lemma_fcfs_find_name_props(v.jobs, p.name@, len);
    let jobs2 = match fcfs_find_name(v.jobs, p.name@, len) {
        Some(i) => v.jobs.remove(i),
        None => v.jobs,
    };
    if let Some(i) = fcfs_find_name(v.jobs, p.name@, len) {
        assert forall|k: int| 0 <= k < jobs2.len() implies (#[trigger] jobs2[k]).arrival_time
            <= bound by {
            if k < i {
                assert(jobs2[k] == v.jobs[k]);
            } else {
                assert(jobs2[k] == v.jobs[k + 1]);
            }
        };
    }
    lemma_fcfs_earliest_index_bounds(jobs2, jobs2.len() as int);
    match fcfs_earliest_index(jobs2, jobs2.len() as int) {
        Some(j) => {
            lemma_fcfs_find_name_at(jobs2, j, jobs2.len() as int);
        },
        None => {},
    }
}

/// Dropping a finished job keeps the non-preemptive SJF bookkeeping
/// well-formed.
proof fn lemma_rsjf_on_finish_wf(v: RealSjfV, p: Process, t: i32)
    requires
        RealSjf::wf(v),
    ensures
        RealSjf::wf(RealSjf::spec_on_finish(v, p, t)),
{
    let len = v.jobs.len() as int;
    lemma_rsjf_find_name_props(v.jobs, p.name@, len);
    match rsjf_find_name(v.jobs, p.name@, len) {
        Some(i) => {
            let jobs2 = v.jobs.remove(i);
            lemma_rsjf_shortest_index_bounds(jobs2, jobs2.len() as int);
            match rsjf_shortest_index(jobs2, jobs2.len() as int) {
                Some(j) => {
                    lemma_rsjf_find_name_at(jobs2, j, jobs2.len() as int);
                },
                None => {},
            }
        },
        None => {},
    }
}

/// Step 3 of a tick preserves coupling: a job is dropped from the
/// bookkeeping only at the tick it finishes, when it was the dispatched
/// one, so no Running process is left behind whatever the policy
/// promotes next.
pub proof fn lemma_finish_phase_inv(s: SchedulerKindV, ps: Seq<Process>, t: i32, n: int)
    requires
        0 <= n <= ps.len(),
        all_light_valid(ps),
        distinct_names(ps),
        coupled(s, ps),
        forall|i: int|
            0 <= i < ps.len() && (#[trigger] ps[i]).finish_time == Some(t) ==> sel_view(s)
                == Some(ps[i].name@),
        sched_inv(s, t),
    ensures
        ({
            let r = spec_finish_phase(s, ps, t, n);
            &&& coupled(r.0, ps)
            &&& forall|i: int|
                n <= i < ps.len() && (#[trigger] ps[i]).finish_time == Some(t) ==> sel_view(r.0)
                    == Some(ps[i].name@)
            &&& (r.0 is Rr <==> s is Rr)
            &&& (r.0 is Fcfs <==> s is Fcfs)
            &&& (r.0 is Sjf <==> s is Sjf)
            &&& (r.0 is RealSjf <==> s is RealSjf)
            &&& ((forall|j: int|
                0 <= j < ps.len() ==> !((#[trigger] ps[j]).spec_finished() && ps[j].finish_time
                    == Some(t))) ==> r.0 == s)
            &&& (s is Rr ==> r.0->Rr_0.quantum == s->Rr_0.quantum
                && r.0->Rr_0.quantum_remaining == s->Rr_0.quantum_remaining)
            &&& sched_inv(r.0, t)
        }),
    decreases n,
{
    if n > 0 {
        lemma_finish_phase_inv(s, ps, t, n - 1);
        let r0 = spec_finish_phase(s, ps, t, n - 1).0;
        let p = ps[n - 1];
        if p.spec_finished() && p.finish_time == Some(t) {
            match r0 {
                SchedulerKindV::Fcfs(v) => {
                    lemma_fcfs_on_finish_wf(v, p, t, t);
                },
                SchedulerKindV::RealSjf(v) => {
                    lemma_rsjf_on_finish_wf(v, p, t);
                },
                SchedulerKindV::Sjf(v) => {},
                SchedulerKindV::Rr(v) => {},
            }
        }
    }
}


/// Recording an arrival keeps FCFS's bookkeeping well-formed and its
/// recorded arrivals bounded; with a job already dispatched, the
/// newcomer never takes the CPU.
proof fn lemma_fcfs_on_arrive_wf(v: FcfsV, p: Process, t: i32)
    requires
        FCFS::wf(v),
        forall|k: int| 0 <= k < v.jobs.len() ==> (#[trigger] v.jobs[k]).arrival_time <= t,
        p.arrival_time == t,
    ensures
        ({
            let r = FCFS::spec_on_arrive(v, p, t);
            &&& FCFS::wf(r.0)
            &&& forall|k: int|
                0 <= k < r.0.jobs.len() ==> (#[trigger] r.0.jobs[k]).arrival_time <= t
            &&& v.first_job is Some ==> r.0.first_job == v.first_job && r.1 == p
            &&& v.first_job is None ==> r.0.first_job == Some(p.name) && r.1 == p.spec_select(t)
        }),
{
    let e = FcfsProcess { name: p.name, arrival_time: p.arrival_time };
    let jobs2 = v.jobs.push(e);
    let len = v.jobs.len() as int;
    if v.first_job is Some {
        let f = v.first_job.unwrap();
        lemma_fcfs_find_name_push(v.jobs, e, f@, len);
        lemma_fcfs_find_name_mono(jobs2, f@, len, len + 1);
        lemma_fcfs_find_name_props(jobs2, f@, len + 1);
    } else {
        lemma_fcfs_find_name_at(jobs2, len, len + 1);
    }
    assert forall|k: int| 0 <= k < jobs2.len() implies (#[trigger] jobs2[k]).arrival_time
        <= t by {
        if k < len {
            assert(jobs2[k] == v.jobs[k]);
        } else {
            assert(jobs2[k] == e);
        }
    };
}

/// Recording an arrival keeps the non-preemptive SJF bookkeeping
/// well-formed.
proof fn lemma_rsjf_on_arrive_wf(v: RealSjfV, p: Process, t: i32)
    requires
        RealSjf::wf(v),
    ensures
        RealSjf::wf(RealSjf::spec_on_arrive(v, p, t).0),
        v.shortest_job is Some ==> ({
            let s2 = RealSjf::spec_on_arrive(v, p, t).0.shortest_job;
            s2 is Some && s2.unwrap()@ == v.shortest_job.unwrap()@
        }),
{
    if v.shortest_job is Some {
        lemma_rsjf_find_name_props(v.jobs, v.shortest_job.unwrap()@, v.jobs.len() as int);
    }
    let e = RealSjfJob { name: p.name, burst_time: p.burst_time };
    let len = v.jobs.len() as int;
    lemma_rsjf_find_name_props(v.jobs, p.name@, len);
    let jobs2 = match rsjf_find_name(v.jobs, p.name@, len) {
        Some(i) => v.jobs.update(i, e),
        None => v.jobs.push(e),
    };
    if v.shortest_job is Some {
        let f = v.shortest_job.unwrap();
        match rsjf_find_name(v.jobs, p.name@, len) {
            Some(i) => {
                lemma_rsjf_find_name_update(v.jobs, i, e, f@, len);
            },
            None => {
                lemma_rsjf_find_name_push(v.jobs, e, f@, len);
                lemma_rsjf_find_name_mono(jobs2, f@, len, len + 1);
            },
        }
    }
    if jobs2.len() == 1 {
        lemma_rsjf_find_name_at(jobs2, 0, 1);
        assert(jobs2[0].name@ == p.name@);
    }
}

/// Step 4 of a tick: an arrival may preempt, but the CPU is never left
/// silently released, Round-Robin only queues the newcomer, and every
/// process that has not arrived yet stays untouched.
pub proof fn lemma_arrival_phase_inv(s: SchedulerKindV, ps: Seq<Process>, t: i32, n: int)
    requires
        0 <= n <= ps.len(),
        all_light_valid(ps),
        distinct_names(ps),
        coupled(s, ps),
        sched_inv(s, t),
        forall|i: int|
            0 <= i < ps.len() && ps[i].arrival_time >= t ==> (#[trigger] ps[i]).fresh(),
    ensures
        ({
            let r = spec_arrival_phase(s, ps, t, n);
            &&& r.1.len() == ps.len()
            &&& forall|i: int| n <= i < ps.len() ==> r.1[i] == ps[i]
            &&& forall|i: int|
                0 <= i < ps.len() ==> (#[trigger] r.1[i]).name@ == ps[i].name@
                    && r.1[i].arrival_time == ps[i].arrival_time && r.1[i].finish_time
                    == ps[i].finish_time && r.1[i].time_remaining == ps[i].time_remaining
            &&& all_light_valid(r.1)
            &&& forall|i: int|
                0 <= i < ps.len() && ps[i].arrival_time > t ==> #[trigger] r.1[i] == ps[i]
            &&& (sel_view(r.0) is None ==> sel_view(s) is None && (forall|i: int|
                0 <= i < ps.len() ==> !(#[trigger] r.1[i]).spec_running()))
            &&& (r.0 is Rr <==> s is Rr)
            &&& (r.0 is Fcfs <==> s is Fcfs)
            &&& (r.0 is Sjf <==> s is Sjf)
            &&& (r.0 is RealSjf <==> s is RealSjf)
            &&& (s is Rr ==> sel_view(r.0) == sel_view(s) && coupled(r.0, r.1)
                && r.0->Rr_0.quantum == s->Rr_0.quantum && r.0->Rr_0.quantum_remaining
                == s->Rr_0.quantum_remaining && r.0->Rr_0.selected == s->Rr_0.selected)
            &&& (s is Fcfs && sel_view(s) is Some ==> sel_view(r.0) == sel_view(s))
            &&& (s is RealSjf && sel_view(s) is Some ==> sel_view(r.0) == sel_view(s))
            &&& forall|i: int|
                0 <= i < ps.len() && ps[i].arrival_time != t ==> #[trigger] r.1[i] == ps[i]
            &&& sched_inv(r.0, t)
        }),
    decreases n,
{
    if n > 0 {
        lemma_arrival_phase_inv(s, ps, t, n - 1);
        let prev = spec_arrival_phase(s, ps, t, n - 1);
        let p = prev.1[n - 1];
        if p.arrival_time == t {
            let p1 = p.spec_deselect();
            match prev.0 {
                SchedulerKindV::Fcfs(v) => {
                    lemma_fcfs_on_arrive_wf(v, p1, t);
                },
                SchedulerKindV::RealSjf(v) => {
                    lemma_rsjf_on_arrive_wf(v, p1, t);
                },
                SchedulerKindV::Sjf(v) => {},
                SchedulerKindV::Rr(v) => {},
            }
        }
    }
}


/// Step 5 of a tick restores coupling: the dispatch decision leaves
/// Running exactly the process the policy deems dispatched, whatever an
/// arrival disturbed earlier in the tick.
pub proof fn lemma_pre_tick_phase_inv(s: SchedulerKindV, ps: Seq<Process>, t: i32, n: int)
    requires
        0 <= n <= ps.len(),
        all_light_valid(ps),
        sched_inv(s, t),
        sel_view(s) is None ==> forall|i: int|
            0 <= i < ps.len() ==> !(#[trigger] ps[i]).spec_running(),
        forall|i: int|
            0 <= i < ps.len() && ps[i].arrival_time > t ==> !(#[trigger] ps[i]).spec_running(),
        s is Rr ==> coupled(s, ps),
    ensures
        ({
            let r = spec_pre_tick_phase(s, ps, t, n);
            &&& r.1.len() == ps.len()
            &&& forall|i: int| n <= i < ps.len() ==> r.1[i] == ps[i]
            &&& forall|i: int|
                0 <= i < ps.len() ==> (#[trigger] r.1[i]).name@ == ps[i].name@
                    && r.1[i].arrival_time == ps[i].arrival_time && r.1[i].finish_time
                    == ps[i].finish_time && r.1[i].time_remaining == ps[i].time_remaining
            &&& all_light_valid(r.1)
            &&& forall|i: int|
                0 <= i < ps.len() && ps[i].arrival_time > t ==> #[trigger] r.1[i] == ps[i]
            &&& forall|i: int|
                0 <= i < n && (#[trigger] r.1[i]).spec_running() ==> sel_view(r.0) == Some(
                    r.1[i].name@,
                )
            &&& (sel_view(s) is Some ==> sel_view(r.0) == sel_view(s))
            &&& (sel_view(r.0) is None ==> sel_view(s) is None)
            &&& (r.0 is Fcfs <==> s is Fcfs)
            &&& (r.0 is Sjf <==> s is Sjf)
            &&& (r.0 is RealSjf <==> s is RealSjf)
            &&& (r.0 is Rr <==> s is Rr)
            &&& (s is Rr ==> coupled(r.0, r.1))
            &&& (s is Rr && sel_view(s) is Some ==> r.0 == s)
            &&& (s is Rr && sel_view(r.0) is None ==> r.0 == s)
            &&& (s is Rr && sel_view(r.0) is Some && sel_view(s) is None ==> r.0->Rr_0.quantum
                == s->Rr_0.quantum && r.0->Rr_0.quantum_remaining == s->Rr_0.quantum)
            &&& (!(s is Rr) ==> r.0 == s)
            &&& (!(s is Rr) ==> forall|i: int|
                0 <= i < n && sel_view(s) == Some((#[trigger] ps[i]).name@)
                    && !ps[i].spec_finished() && ps[i].arrival_time <= t
                    ==> r.1[i].spec_running())
            &&& forall|i: int|
                0 <= i < ps.len() && (#[trigger] ps[i]).spec_finished() ==> r.1[i] == ps[i]
            &&& sched_inv(r.0, t)
        }),
    decreases n,
{
    if n > 0 {
        lemma_pre_tick_phase_inv(s, ps, t, n - 1);
        let prev = spec_pre_tick_phase(s, ps, t, n - 1);
        let p = prev.1[n - 1];
        if !p.spec_finished() && p.arrival_time <= t {
            let q = SchedulerKind::spec_pre_tick(prev.0, p, t);
            assert(sel_view(q.0) == sel_view(prev.0) || sel_view(prev.0) is None);
            assert(q.1.spec_running() ==> sel_view(q.0) == Some(q.1.name@));
        }
    }
}

/// Coupling plus distinct names bounds the CPU to one occupant.
pub proof fn lemma_coupled_at_most_one(s: SchedulerKindV, ps: Seq<Process>)
    requires
        coupled(s, ps),
        distinct_names(ps),
    ensures
        at_most_one_running(ps),
{
}



/// A process the preemptive SJF bookkeeping tracks at tick boundary
/// `t`: arrived before `t` and not yet finished.
pub open spec fn sjf_live(p: Process, t: i32) -> bool {
    p.arrival_time < t && p.time_remaining != 0
}

/// No two SJF entries share a name.
pub open spec fn sjf_entries_unique(jobs: Seq<SjfJob>) -> bool {
    forall|j: int, k: int|
        0 <= j < jobs.len() && 0 <= k < jobs.len() && j != k ==> jobs[j].name@ != jobs[k].name@
}

/// No SJF entry records an arrival after `bound`.
pub open spec fn sjf_entries_bounded(jobs: Seq<SjfJob>, bound: int) -> bool {
    forall|k: int| 0 <= k < jobs.len() ==> (#[trigger] jobs[k]).arrival_time <= bound
}

/// The SJF bookkeeping mirrors the processes: a process has an entry
/// exactly when it is live, and its entry carries its current remaining
/// burst and arrival time.
pub open spec fn sjf_entries_ok(v: SjfV, ps: Seq<Process>, t: i32) -> bool {
    forall|i: int|
        0 <= i < ps.len() ==> (match sjf_find_name(
            v.jobs,
            (#[trigger] ps[i]).name@,
            v.jobs.len() as int,
        ) {
            Some(j) => sjf_live(ps[i], t) && v.jobs[j].time_remaining == ps[i].time_remaining
                && v.jobs[j].arrival_time == ps[i].arrival_time,
            None => !sjf_live(ps[i], t),
        })
}

/// The deemed-shortest entry has the least key among all entries.
pub open spec fn sjf_min_ok(v: SjfV) -> bool {
    v.shortest_job is Some ==> (match sjf_find_name(
        v.jobs,
        v.shortest_job.unwrap()@,
        v.jobs.len() as int,
    ) {
        Some(m) => forall|k: int|
            0 <= k < v.jobs.len() ==> !sjf_key_lt(#[trigger] v.jobs[k], v.jobs[m]),
        None => false,
    })
}

/// The preemptive SJF bookkeeping invariant at tick boundary `t`.
pub open spec fn sjf_sync(s: SchedulerKindV, ps: Seq<Process>, t: i32) -> bool {
    match s {
        SchedulerKindV::Sjf(v) => {
            &&& sjf_entries_ok(v, ps, t)
            &&& sjf_entries_unique(v.jobs)
            &&& sjf_entries_bounded(v.jobs, t - 1)
            &&& sjf_min_ok(v)
            &&& (v.jobs.len() > 0 ==> v.shortest_job is Some)
        },
        _ => true,
    }
}

/// Step 2 of an SJF tick refreshes the live entries with the current
/// remaining bursts: only the dispatched job's key can shrink, so the
/// deemed-shortest entry stays minimal; the finisher's entry goes stale
/// but survives untouched.
proof fn lemma_sjf_on_tick_sync(v: SjfV, ps0: Seq<Process>, t: i32, n: int)
    requires
        0 <= n <= ps0.len(),
        0 <= t,
        all_light_valid(ps0),
        distinct_names(ps0),
        coupled(SchedulerKindV::Sjf(v), ps0),
        forall|i: int|
            0 <= i < ps0.len() ==> (match (#[trigger] ps0[i]).finish_time {
                Some(ft) => ft < t,
                None => true,
            }),
        sjf_entries_ok(v, ps0, t),
        sjf_entries_unique(v.jobs),
        sjf_min_ok(v),
        sjf_entries_bounded(v.jobs, t - 1),
    ensures
        ({
            let ps = spec_tick_phase(ps0, t, ps0.len() as int);
            let r = spec_on_tick_phase(SchedulerKindV::Sjf(v), ps, t, n);
            match r.0 {
                SchedulerKindV::Sjf(v2) => {
                    &&& r.1 == ps
                    &&& v2.shortest_job == v.shortest_job
                    &&& v2.jobs.len() == v.jobs.len()
                    &&& sjf_entries_unique(v2.jobs)
                    &&& sjf_min_ok(v2)
                    &&& sjf_entries_bounded(v2.jobs, t - 1)
                    &&& forall|i: int|
                        0 <= i < ps.len() ==> (match sjf_find_name(
                            v2.jobs,
                            (#[trigger] ps[i]).name@,
                            v2.jobs.len() as int,
                        ) {
                            Some(j) => sjf_live(ps0[i], t) && (if i < n && ps[i].time_remaining
                                != 0 && ps[i].arrival_time <= t - 1 {
                                v2.jobs[j].time_remaining == ps[i].time_remaining
                                    && v2.jobs[j].arrival_time == ps[i].arrival_time
                            } else {
                                v2.jobs[j].time_remaining == ps0[i].time_remaining
                                    && v2.jobs[j].arrival_time == ps0[i].arrival_time
                            }),
                            None => !sjf_live(ps0[i], t),
                        })
                },
                _ => false,
            }
        }),
    decreases n,
{
    lemma_tick_phase_inv(SchedulerKindV::Sjf(v), ps0, t, ps0.len() as int);
    let ps = spec_tick_phase(ps0, t, ps0.len() as int);
    if n > 0 {
        lemma_sjf_on_tick_sync(v, ps0, t, n - 1);
        let prev = spec_on_tick_phase(SchedulerKindV::Sjf(v), ps, t, n - 1);
        let v1 = prev.0->Sjf_0;
        let p = ps[n - 1];
        if p.time_remaining != 0 && p.arrival_time <= t - 1 {
            let len1 = v1.jobs.len() as int;
            lemma_sjf_find_name_props(v1.jobs, p.name@, len1);
            let e = SjfJob {
                name: p.name,
                time_remaining: p.time_remaining,
                arrival_time: p.arrival_time,
            };
            match sjf_find_name(v1.jobs, p.name@, len1) {
                Some(j) => {
                    let jobs2 = v1.jobs.update(j, e);
                    let v2 = SjfV { jobs: jobs2, shortest_job: v1.shortest_job };
                    assert forall|nm: Seq<char>|
                        sjf_find_name(jobs2, nm, len1) == sjf_find_name(v1.jobs, nm, len1) by {
                        lemma_sjf_find_name_update(v1.jobs, j, e, nm, len1);
                    };
                    assert(ps[n - 1].name@ == ps0[n - 1].name@);
                    // Only the dispatched job's remaining burst shrinks, and
                    // its entry is exactly the deemed-shortest one.
                    if p.time_remaining != ps0[n - 1].time_remaining {
                        assert(ps0[n - 1].spec_running());
                        assert(sel_view(SchedulerKindV::Sjf(v)) == Some(ps0[n - 1].name@));
                        assert(p.time_remaining == ps0[n - 1].time_remaining - 1);
                    }
                    assert(sjf_entries_unique(jobs2)) by {
                        assert(e.name@ == v1.jobs[j].name@);
                        assert(forall|x: int|
                            0 <= x < jobs2.len() ==> (#[trigger] jobs2[x]).name@
                                == v1.jobs[x].name@);
                    };
                    assert(sjf_min_ok(v2)) by {
                        if v1.shortest_job is Some {
                            let sel = v1.shortest_job.unwrap()@;
                            lemma_sjf_find_name_props(v1.jobs, sel, len1);
                            let m = sjf_find_name(v1.jobs, sel, len1).unwrap();
                            assert(sjf_find_name(jobs2, sel, len1) == Some(m));
                            if m == j {
                                assert(v1.jobs[m].name@ == p.name@);
                                assert(jobs2[m] == e);
                                assert(e.time_remaining <= v1.jobs[m].time_remaining);
                                assert(e.arrival_time == v1.jobs[m].arrival_time);
                                assert forall|k: int| 0 <= k < jobs2.len() implies !sjf_key_lt(
                                    #[trigger] jobs2[k],
                                    jobs2[m],
                                ) by {
                                    if k != m {
                                        assert(jobs2[k] == v1.jobs[k]);
                                        assert(!sjf_key_lt(v1.jobs[k], v1.jobs[m]));
                                    }
                                };
                            } else {
                                assert(v1.jobs[j].name@ != sel);
                                if p.time_remaining != ps0[n - 1].time_remaining {
                                    assert(sel_view(SchedulerKindV::Sjf(v)) == Some(
                                        ps0[n - 1].name@,
                                    ));
                                    assert(v.shortest_job == v1.shortest_job);
                                    assert(sel == ps0[n - 1].name@);
                                    assert(false);
                                }
                                assert(e.time_remaining == v1.jobs[j].time_remaining);
                                assert(e.arrival_time == v1.jobs[j].arrival_time);
                                assert(jobs2[m] == v1.jobs[m]);
                                assert forall|k: int| 0 <= k < jobs2.len() implies !sjf_key_lt(
                                    #[trigger] jobs2[k],
                                    jobs2[m],
                                ) by {
                                    assert(!sjf_key_lt(v1.jobs[k], v1.jobs[m]));
                                    if k == j {
                                        assert(jobs2[k].time_remaining
                                            == v1.jobs[k].time_remaining);
                                        assert(jobs2[k].arrival_time == v1.jobs[k].arrival_time);
                                    } else {
                                        assert(jobs2[k] == v1.jobs[k]);
                                    }
                                };
                            }
                        }
                    };
                    assert forall|i: int|
                        0 <= i < ps.len() && i != n - 1 implies sjf_find_name(
                        jobs2,
                        ps[i].name@,
                        len1,
                    ) == sjf_find_name(v1.jobs, ps[i].name@, len1) && (match sjf_find_name(
                        jobs2,
                        ps[i].name@,
                        len1,
                    ) {
                        Some(ji) => jobs2[ji] == v1.jobs[ji],
                        None => true,
                    }) by {
                        lemma_sjf_find_name_props(v1.jobs, ps[i].name@, len1);
                        assert(ps[i].name@ == ps0[i].name@);
                        if sjf_find_name(v1.jobs, ps[i].name@, len1) is Some {
                            let ji = sjf_find_name(v1.jobs, ps[i].name@, len1).unwrap();
                            assert(v1.jobs[ji].name@ == ps[i].name@);
                            assert(ps0[i].name@ != ps0[n - 1].name@);
                            assert(ji != j);
                        }
                    };
                },
                None => {
                    assert(ps0[n - 1].time_remaining != 0);
                    assert(false);
                },
            }
        }
    }
}


/// Step 3 of an SJF tick removes the finished job's entry and promotes
/// the least-key survivor, leaving the bookkeeping an exact mirror of
/// the live processes.
proof fn lemma_sjf_finish_sync(v: SjfV, ps: Seq<Process>, t: i32, n: int)
    requires
        0 <= n <= ps.len(),
        distinct_names(ps),
        sjf_entries_unique(v.jobs),
        sjf_entries_bounded(v.jobs, t - 1),
        sjf_min_ok(v),
        v.jobs.len() > 0 ==> v.shortest_job is Some,
        forall|i: int|
            0 <= i < ps.len() ==> (match sjf_find_name(
                v.jobs,
                (#[trigger] ps[i]).name@,
                v.jobs.len() as int,
            ) {
                Some(j) => (ps[i].time_remaining != 0 && ps[i].arrival_time < t
                    && v.jobs[j].time_remaining == ps[i].time_remaining && v.jobs[j].arrival_time
                    == ps[i].arrival_time) || (ps[i].time_remaining == 0 && ps[i].finish_time
                    == Some(t)),
                None => !(ps[i].time_remaining != 0 && ps[i].arrival_time < t),
            }),
    ensures
        ({
            let r = spec_finish_phase(SchedulerKindV::Sjf(v), ps, t, n);
            match r.0 {
                SchedulerKindV::Sjf(v3) => {
                    &&& sjf_entries_unique(v3.jobs)
                    &&& sjf_entries_bounded(v3.jobs, t - 1)
                    &&& sjf_min_ok(v3)
                    &&& (v3.jobs.len() > 0 ==> v3.shortest_job is Some)
                    &&& forall|i: int|
                        0 <= i < ps.len() ==> (match sjf_find_name(
                            v3.jobs,
                            (#[trigger] ps[i]).name@,
                            v3.jobs.len() as int,
                        ) {
                            Some(j) => (ps[i].time_remaining != 0 && ps[i].arrival_time < t
                                && v3.jobs[j].time_remaining == ps[i].time_remaining
                                && v3.jobs[j].arrival_time == ps[i].arrival_time) || (
                            ps[i].time_remaining == 0 && ps[i].finish_time == Some(t) && i >= n),
                            None => !(ps[i].time_remaining != 0 && ps[i].arrival_time < t),
                        })
                },
                _ => false,
            }
        }),
    decreases n,
{
    if n > 0 {
        lemma_sjf_finish_sync(v, ps, t, n - 1);
        let prev = spec_finish_phase(SchedulerKindV::Sjf(v), ps, t, n - 1);
        let v1 = prev.0->Sjf_0;
        let p = ps[n - 1];
        if p.spec_finished() && p.finish_time == Some(t) {
            let len1 = v1.jobs.len() as int;
            lemma_sjf_find_name_props(v1.jobs, p.name@, len1);
            match sjf_find_name(v1.jobs, p.name@, len1) {
                Some(rm) => {
                    let jobs2 = v1.jobs.remove(rm);
                    assert forall|x: int| 0 <= x < jobs2.len() implies #[trigger] jobs2[x] == (
                    if x < rm {
                        v1.jobs[x]
                    } else {
                        v1.jobs[x + 1]
                    }) by {}
                    assert(sjf_entries_unique(jobs2));
                    assert(sjf_entries_bounded(jobs2, t - 1));
                    assert forall|i: int| 0 <= i < ps.len() implies ({
                        let f1 = sjf_find_name(v1.jobs, (#[trigger] ps[i]).name@, len1);
                        let f2 = sjf_find_name(jobs2, ps[i].name@, jobs2.len() as int);
                        if i != n - 1 {
                            match f1 {
                                Some(j) => f2 is Some && jobs2[f2.unwrap()] == v1.jobs[j],
                                None => f2 is None,
                            }
                        } else {
                            f2 is None
                        }
                    }) by {
                        lemma_sjf_find_name_remove(v1.jobs, rm, ps[i].name@);
                        if i != n - 1 {
                            assert(ps[i].name@ != ps[n - 1].name@);
                            lemma_sjf_find_name_props(v1.jobs, ps[i].name@, len1);
                        }
                    };
                    lemma_sjf_shortest_index_is_min(jobs2, jobs2.len() as int);
                    match sjf_shortest_index(jobs2, jobs2.len() as int) {
                        Some(am) => {
                            lemma_sjf_find_name_at(jobs2, am, jobs2.len() as int);
                            lemma_sjf_find_name_props(jobs2, jobs2[am].name@, jobs2.len() as int);
                        },
                        None => {},
                    }
                },
                None => {
                    lemma_sjf_shortest_index_is_min(v1.jobs, len1);
                    match sjf_shortest_index(v1.jobs, len1) {
                        Some(am) => {
                            lemma_sjf_find_name_at(v1.jobs, am, len1);
                            lemma_sjf_find_name_props(v1.jobs, v1.jobs[am].name@, len1);
                        },
                        None => {},
                    }
                },
            }
        }
    }
}


/// Step 4 of an SJF tick records each arrival with its current values;
/// the newcomer becomes the deemed-shortest exactly when its remaining
/// burst is strictly the shortest, so the deemed-shortest entry stays
/// minimal and the mirror covers every live process.
proof fn lemma_sjf_arrival_sync(v: SjfV, ps: Seq<Process>, t: i32, n: int)
    requires
        0 <= n <= ps.len(),
        distinct_names(ps),
        sjf_entries_unique(v.jobs),
        sjf_entries_bounded(v.jobs, t - 1),
        sjf_min_ok(v),
        v.jobs.len() > 0 ==> v.shortest_job is Some,
        forall|i: int|
            0 <= i < ps.len() && ps[i].arrival_time >= t ==> (#[trigger] ps[i]).time_remaining
                != 0,
        forall|i: int|
            0 <= i < ps.len() ==> (match sjf_find_name(
                v.jobs,
                (#[trigger] ps[i]).name@,
                v.jobs.len() as int,
            ) {
                Some(j) => ps[i].time_remaining != 0 && ps[i].arrival_time < t
                    && v.jobs[j].time_remaining == ps[i].time_remaining && v.jobs[j].arrival_time
                    == ps[i].arrival_time,
                None => !(ps[i].time_remaining != 0 && ps[i].arrival_time < t),
            }),
    ensures
        ({
            let r = spec_arrival_phase(SchedulerKindV::Sjf(v), ps, t, n);
            match r.0 {
                SchedulerKindV::Sjf(v4) => {
                    &&& r.1.len() == ps.len()
                    &&& forall|i: int| n <= i < ps.len() ==> r.1[i] == ps[i]
                    &&& sjf_entries_unique(v4.jobs)
                    &&& sjf_entries_bounded(v4.jobs, t as int)
                    &&& sjf_min_ok(v4)
                    &&& (v4.jobs.len() > 0 ==> v4.shortest_job is Some)
                    &&& forall|i: int|
                        0 <= i < ps.len() ==> (match sjf_find_name(
                            v4.jobs,
                            (#[trigger] ps[i]).name@,
                            v4.jobs.len() as int,
                        ) {
                            Some(j) => ps[i].time_remaining != 0 && (ps[i].arrival_time < t || (
                            ps[i].arrival_time == t && i < n)) && v4.jobs[j].time_remaining
                                == ps[i].time_remaining && v4.jobs[j].arrival_time
                                == ps[i].arrival_time,
                            None => !(ps[i].time_remaining != 0 && (ps[i].arrival_time < t || (
                            ps[i].arrival_time == t && i < n))),
                        })
                },
                _ => false,
            }
        }),
    decreases n,
{
    if n > 0 {
        lemma_sjf_arrival_sync(v, ps, t, n - 1);
        let prev = spec_arrival_phase(SchedulerKindV::Sjf(v), ps, t, n - 1);
        let v1 = prev.0->Sjf_0;
        assert(prev.1[n - 1] == ps[n - 1]);
        let p0 = ps[n - 1];
        if p0.arrival_time == t {
            let p = p0.spec_deselect();
            assert(p.name == p0.name && p.time_remaining == p0.time_remaining
                && p.arrival_time == p0.arrival_time);
            assert(p.time_remaining != 0);
            let len1 = v1.jobs.len() as int;
            let e = SjfJob {
                name: p.name,
                time_remaining: p.time_remaining,
                arrival_time: p.arrival_time,
            };
            assert(sjf_find_name(v1.jobs, p.name@, len1) is None);
            let jobs2 = v1.jobs.push(e);
            assert(jobs2[len1] == e);
            assert forall|nm: Seq<char>|
                sjf_find_name(jobs2, nm, len1) == sjf_find_name(v1.jobs, nm, len1) by {
                lemma_sjf_find_name_push(v1.jobs, e, nm, len1);
            };
            assert forall|nm: Seq<char>| sjf_find_name(v1.jobs, nm, len1) is Some
                implies sjf_find_name(jobs2, nm, len1 + 1) == sjf_find_name(
                v1.jobs,
                nm,
                len1,
            ) by {
                lemma_sjf_find_name_mono(jobs2, nm, len1, len1 + 1);
            };
            lemma_sjf_find_name_push(v1.jobs, e, p.name@, len1);
            assert(sjf_find_name(jobs2, p.name@, len1) is None);
            assert(jobs2[len1].name@ == p.name@);
            assert(sjf_find_name(jobs2, p.name@, len1 + 1) == Some(len1));
            assert forall|i: int|
                0 <= i < ps.len() && i != n - 1 implies sjf_find_name(
                jobs2,
                (#[trigger] ps[i]).name@,
                len1 + 1,
            ) == sjf_find_name(v1.jobs, ps[i].name@, len1) by {
                assert(ps[i].name@ != p.name@);
                lemma_sjf_find_name_props(v1.jobs, ps[i].name@, len1);
                match sjf_find_name(v1.jobs, ps[i].name@, len1) {
                    Some(j) => {
                        assert(jobs2[j] == v1.jobs[j]);
                    },
                    None => {
                        lemma_sjf_find_name_props(jobs2, ps[i].name@, len1 + 1);
                        if sjf_find_name(jobs2, ps[i].name@, len1 + 1) is Some {
                            let j2 = sjf_find_name(jobs2, ps[i].name@, len1 + 1).unwrap();
                            assert(jobs2[j2].name@ == ps[i].name@);
                            assert(j2 == len1);
                            assert(false);
                        }
                    },
                }
            };
            assert(sjf_entries_unique(jobs2)) by {
                lemma_sjf_find_name_props(v1.jobs, p.name@, len1);
                assert forall|x: int, y: int|
                    0 <= x < jobs2.len() && 0 <= y < jobs2.len() && x != y implies jobs2[x].name@
                    != jobs2[y].name@ by {
                    if x == len1 || y == len1 {
                        let o = if x == len1 {
                            y
                        } else {
                            x
                        };
                        assert(jobs2[o] == v1.jobs[o]);
                        lemma_sjf_find_name_at(v1.jobs, o, len1);
                    }
                };
            };
            if v1.shortest_job is Some {
                let sel = v1.shortest_job.unwrap()@;
                lemma_sjf_find_name_props(v1.jobs, sel, len1);
                let m = sjf_find_name(v1.jobs, sel, len1).unwrap();
                assert(sjf_find_name(jobs2, sel, len1 + 1) == Some(m));
                if jobs2[m].time_remaining > p.time_remaining {
                    // the newcomer preempts: it is strictly the least key
                    assert forall|k: int| 0 <= k < jobs2.len() implies !sjf_key_lt(
                        #[trigger] jobs2[k],
                        jobs2[len1],
                    ) by {
                        if k < len1 {
                            assert(jobs2[k] == v1.jobs[k]);
                            assert(!sjf_key_lt(v1.jobs[k], v1.jobs[m]));
                        }
                    };
                } else {
                    // the dispatched job keeps the least key: a tie goes to
                    // the earlier arrival, and every recorded arrival
                    // precedes the newcomer's
                    assert forall|k: int| 0 <= k < jobs2.len() implies !sjf_key_lt(
                        #[trigger] jobs2[k],
                        jobs2[m],
                    ) by {
                        if k < len1 {
                            assert(jobs2[k] == v1.jobs[k]);
                            assert(!sjf_key_lt(v1.jobs[k], v1.jobs[m]));
                        } else {
                            assert(jobs2[k] == e);
                            assert(v1.jobs[m].arrival_time <= t as int);
                        }
                    };
                }
            } else {
                assert(v1.jobs.len() == 0);
                assert(jobs2.len() == 1);
                assert(sjf_find_name(jobs2, p.name@, 1) == Some(0int));
            }
            let r = spec_arrival_phase(SchedulerKindV::Sjf(v), ps, t, n);
            assert(r.0 is Sjf);
            assert(r.0->Sjf_0.jobs == jobs2);
            assert forall|i: int| 0 <= i < ps.len() implies (match sjf_find_name(
                jobs2,
                (#[trigger] ps[i]).name@,
                len1 + 1,
            ) {
                Some(j) => ps[i].time_remaining != 0 && (ps[i].arrival_time < t || (
                ps[i].arrival_time == t && i < n)) && jobs2[j].time_remaining
                    == ps[i].time_remaining && jobs2[j].arrival_time == ps[i].arrival_time,
                None => !(ps[i].time_remaining != 0 && (ps[i].arrival_time < t || (
                ps[i].arrival_time == t && i < n))),
            }) by {
                if i == n - 1 {
                    assert(sjf_find_name(jobs2, ps[i].name@, len1 + 1) == Some(len1));
                } else {
                    assert(sjf_find_name(jobs2, ps[i].name@, len1 + 1) == sjf_find_name(
                        v1.jobs,
                        ps[i].name@,
                        len1,
                    ));
                    if sjf_find_name(v1.jobs, ps[i].name@, len1) is Some {
                        let j = sjf_find_name(v1.jobs, ps[i].name@, len1).unwrap();
                        lemma_sjf_find_name_props(v1.jobs, ps[i].name@, len1);
                        assert(jobs2[j] == v1.jobs[j]);
                    }
                }
            };
        }
    }
}

/// One whole tick preserves the simulation invariant.
pub proof fn lemma_step_preserves_inv(s: SchedulerKindV, ps: Seq<Process>, t: i32)
    requires
        sim_inv(s, ps, t),
        0 <= t < i32::MAX,
    ensures
        ({
            let r = spec_step(s, ps, t);
            &&& sim_inv(r.0, r.1, (t + 1) as i32)
            &&& r.1.len() == ps.len()
            &&& (r.0 is Fcfs <==> s is Fcfs)
            &&& (r.0 is Sjf <==> s is Sjf)
            &&& (r.0 is RealSjf <==> s is RealSjf)
            &&& (r.0 is Rr <==> s is Rr)
        }),
{
    let n = ps.len() as int;
    lemma_tick_phase_inv(s, ps, t, n);
    let ps1 = spec_tick_phase(ps, t, n);
    assert(distinct_names(ps1));
    assert forall|i: int|
        0 <= i < ps1.len() && ps1[i].arrival_time >= t implies (#[trigger] ps1[i]).fresh() by {
        assert(ps1[i].arrival_time == ps[i].arrival_time);
        assert(ps[i].arrival_time >= t ==> ps1[i] == ps[i]);
    };
    lemma_on_tick_phase_inv(s, ps1, t, n);
    let r2 = spec_on_tick_phase(s, ps1, t, n);
    assert(distinct_names(r2.1));
    lemma_finish_phase_inv(r2.0, r2.1, t, n);
    let r3 = spec_finish_phase(r2.0, r2.1, t, n);
    assert forall|i: int|
        0 <= i < r2.1.len() && r2.1[i].arrival_time >= t implies (#[trigger] r2.1[i]).fresh() by {
        assert(r2.1[i].arrival_time == ps1[i].arrival_time);
        assert(ps1[i].arrival_time >= t ==> r2.1[i] == ps1[i]);
    };
    lemma_arrival_phase_inv(r3.0, r2.1, t, n);
    let r4 = spec_arrival_phase(r3.0, r2.1, t, n);
    assert(distinct_names(r4.1));
    assert forall|i: int|
        0 <= i < r4.1.len() && r4.1[i].arrival_time > t implies !(#[trigger] r4.1[
            i
        ]).spec_running() by {
        assert(r4.1[i].arrival_time == r2.1[i].arrival_time);
        assert(r2.1[i].arrival_time > t ==> r4.1[i] == r2.1[i] && r2.1[i].fresh());
    };
    lemma_pre_tick_phase_inv(r4.0, r4.1, t, n);
    let r5 = spec_pre_tick_phase(r4.0, r4.1, t, n);
    assert(distinct_names(r5.1));
    let t2 = (t + 1) as i32;
    assert forall|i: int|
        0 <= i < r5.1.len() && r5.1[i].arrival_time >= t2 implies (#[trigger] r5.1[
            i
        ]).fresh() by {
        assert(r5.1[i].arrival_time == r4.1[i].arrival_time);
        assert(r4.1[i].arrival_time == r2.1[i].arrival_time);
        assert(r2.1[i].arrival_time > t ==> r4.1[i] == r2.1[i]);
        assert(r4.1[i].arrival_time > t ==> r5.1[i] == r4.1[i]);
        assert(r2.1[i].arrival_time >= t ==> r2.1[i] == ps1[i]);
        assert(ps1[i].arrival_time == ps[i].arrival_time);
        assert(ps[i].arrival_time >= t ==> ps1[i] == ps[i]);
    };
    assert forall|i: int|
        0 <= i < r5.1.len() implies (match (#[trigger] r5.1[i]).finish_time {
        Some(ft) => ft < t2,
        None => true,
    }) by {
        assert(r5.1[i].finish_time == r4.1[i].finish_time);
        assert(r4.1[i].finish_time == r2.1[i].finish_time);
        assert(r2.1[i].finish_time == ps1[i].finish_time);
    };
    assert(coupled(r5.0, r5.1));
    assert(sched_inv(r5.0, t2)) by {
        match r5.0 {
            SchedulerKindV::Fcfs(v) => {
                assert(forall|k: int|
                    0 <= k < v.jobs.len() ==> (#[trigger] v.jobs[k]).arrival_time <= t2);
            },
            SchedulerKindV::RealSjf(v) => {},
            SchedulerKindV::Sjf(v) => {},
            SchedulerKindV::Rr(v) => {},
        }
    };
}

/// The simulation invariant holds at every tick boundary of a run.
pub proof fn lemma_sim_preserves_inv(s: SchedulerKindV, ps: Seq<Process>, t: int)
    requires
        sim_inv(s, ps, 0),
        0 <= t <= i32::MAX,
    ensures
        ({
            let r = spec_sim(s, ps, t);
            &&& sim_inv(r.0, r.1, t as i32)
            &&& r.1.len() == ps.len()
            &&& (r.0 is Fcfs <==> s is Fcfs)
            &&& (r.0 is Sjf <==> s is Sjf)
            &&& (r.0 is RealSjf <==> s is RealSjf)
            &&& (r.0 is Rr <==> s is Rr)
        }),
    decreases t,
{
    if t > 0 {
        lemma_sim_preserves_inv(s, ps, t - 1);
        let r = spec_sim(s, ps, t - 1);
        lemma_step_preserves_inv(r.0, r.1, (t - 1) as i32);
        assert(((t - 1) as i32 + 1) as i32 == t as i32);
    }
}

/// Under every policy, at most one process occupies the CPU at every
/// tick boundary of a run that starts from a fresh workload with
/// distinct process names and an empty scheduler.
pub proof fn lemma_at_most_one_running_throughout(s: SchedulerKindV, ps: Seq<Process>, t: int)
    requires
        forall|i: int| 0 <= i < ps.len() ==> (#[trigger] ps[i]).valid() && ps[i].fresh(),
        distinct_names(ps),
        pristine(s),
        0 <= t <= i32::MAX,
    ensures
        at_most_one_running(spec_sim(s, ps, t).1),
{
    assert(sim_inv(s, ps, 0)) by {
        assert(all_light_valid(ps));
        assert(coupled(s, ps));
        assert(sched_inv(s, 0));
    };
    lemma_sim_preserves_inv(s, ps, t);
    let r = spec_sim(s, ps, t);
    lemma_coupled_at_most_one(r.0, r.1);
}


/// FCFS never preempts.  While a job is dispatched, an arrival neither
/// moves the dispatch nor touches the arriving process's state, the
/// dispatch decision keeps the dispatched job Running and sets every
/// other job Ready, and the tick observer does nothing; only
/// `on_finish` moves the dispatch, so a dispatched job runs to
/// completion.
pub proof fn lemma_fcfs_no_preemption(v: FcfsV, p: Process, time: i32)
    requires
        FCFS::wf(v),
        forall|k: int| 0 <= k < v.jobs.len() ==> (#[trigger] v.jobs[k]).arrival_time <= time,
    ensures
        v.first_job is Some && p.arrival_time == time ==> FCFS::spec_on_arrive(
            v,
            p,
            time,
        ).0.first_job == v.first_job && FCFS::spec_on_arrive(v, p, time).1 == p,
        FCFS::spec_pre_tick(v, p, time).0 == v,
        v.first_job is Some && v.first_job.unwrap()@ == p.name@ && !p.spec_finished()
            ==> FCFS::spec_pre_tick(v, p, time).1.spec_running(),
        v.first_job is Some && v.first_job.unwrap()@ != p.name@ && !p.spec_finished()
            ==> !FCFS::spec_pre_tick(v, p, time).1.spec_running(),
        FCFS::spec_on_tick(v, p, time) == (v, p),
{
    if v.first_job is Some && p.arrival_time == time {
        lemma_fcfs_on_arrive_wf(v, p, time);
    }
}

/// Preemptive SJF dispatches by least remaining burst.  The dispatch
/// decision keeps Running exactly the job deemed shortest; the job
/// promoted at a completion has the least (remaining burst, arrival
/// time) key among the surviving live jobs; and an arriving job takes
/// the CPU exactly when its remaining burst is strictly shorter than
/// the dispatched job's recorded remaining burst.
pub proof fn lemma_sjf_runs_shortest(v: SjfV, p: Process, time: i32)
    ensures
        v.shortest_job is Some && v.shortest_job.unwrap()@ == p.name@ && !p.spec_finished()
            ==> SJF::spec_pre_tick(v, p, time).1.spec_running(),
        v.shortest_job is Some && v.shortest_job.unwrap()@ != p.name@ && !p.spec_finished()
            ==> !SJF::spec_pre_tick(v, p, time).1.spec_running(),
        ({
            let v2 = SJF::spec_on_finish(v, p, time);
            match sjf_shortest_index(v2.jobs, v2.jobs.len() as int) {
                Some(i) => v2.shortest_job == Some(v2.jobs[i].name) && forall|k: int|
                    0 <= k < v2.jobs.len() ==> !sjf_key_lt(#[trigger] v2.jobs[k], v2.jobs[i]),
                None => v2.shortest_job is None && v2.jobs.len() == 0,
            }
        }),
        ({
            let r = SJF::spec_on_arrive(v, p, time);
            let jobs2 = r.0.jobs;
            v.shortest_job is Some && sjf_find_name(
                jobs2,
                v.shortest_job.unwrap()@,
                jobs2.len() as int,
            ) is Some ==> {
                let cur = jobs2[sjf_find_name(
                    jobs2,
                    v.shortest_job.unwrap()@,
                    jobs2.len() as int,
                ).unwrap()];
                &&& (cur.time_remaining > p.time_remaining ==> r.0.shortest_job == Some(p.name)
                    && r.1.spec_running())
                &&& (cur.time_remaining <= p.time_remaining ==> r.0.shortest_job
                    == v.shortest_job && r.1 == p)
            }
        }),
{
    let v2 = SJF::spec_on_finish(v, p, time);
    lemma_sjf_shortest_index_is_min(v2.jobs, v2.jobs.len() as int);
}

/// Round-Robin bounds consecutive CPU time by the quantum.  A fresh
/// dispatch always starts with the full quantum; each observed tick
/// spends one unit on the dispatched job; and the moment the quantum is
/// spent the job is set Ready, requeued at the tail, and the CPU is
/// released, so no job is Running for more than `quantum` consecutive
/// ticks unless it finishes first.
pub proof fn lemma_rr_quantum_bound(v: RrV, p: Process, time: i32)
    requires
        RR::wf(v),
        light_valid(p),
    ensures
        v.selected is None && v.queue.len() > 0 && v.queue[0]@ == p.name@ ==> ({
            let r = RR::spec_pre_tick(v, p, time);
            &&& r.0.quantum_remaining == v.quantum
            &&& r.0.selected == Some(v.queue[0])
            &&& r.1.spec_running()
        }),
        v.selected is Some && v.selected.unwrap()@ == p.name@ ==> ({
            let r = RR::spec_on_tick(v, p, time);
            if v.quantum_remaining == 1 {
                &&& r.0.selected is None
                &&& r.0.queue == v.queue.push(p.name)
                &&& !r.1.spec_running()
            } else {
                &&& r.0.selected == v.selected
                &&& r.0.quantum_remaining == v.quantum_remaining - 1
                &&& r.1 == p
            }
        }),
        v.selected is Some && v.selected.unwrap()@ != p.name@ ==> RR::spec_on_tick(v, p, time)
            == (v, p),
{
}


/// The law above at the engine's doorstep: in the state that the
/// contract of `CPU::run` pins after any number of ticks of a
/// well-formed workload with distinct names and an empty scheduler, at
/// most one process occupies the CPU.
pub proof fn lemma_model_at_most_one_running(m: ScheduleModel, t: int)
    requires
        m.wf(),
        distinct_names(m.process_list@),
        pristine(m.scheduler@),
        0 <= t <= m.time_units + 1,
    ensures
        at_most_one_running(spec_sim(m.scheduler@, m.process_list@, t).1),
{
    lemma_at_most_one_running_throughout(m.scheduler@, m.process_list@, t);
}


/// One tick under FCFS never preempts: a Running process either
/// finishes during the tick or is still Running at the next boundary,
/// and a finished process is never touched again.
pub proof fn lemma_fcfs_step_no_preemption(s: SchedulerKindV, ps: Seq<Process>, t: i32, i: int)
    requires
        sim_inv(s, ps, t),
        0 <= t < i32::MAX,
        s is Fcfs,
        0 <= i < ps.len(),
    ensures
        ({
            let r = spec_step(s, ps, t);
            &&& ps[i].spec_running() ==> r.1[i].spec_running() || r.1[i].spec_finished()
            &&& ps[i].spec_finished() ==> r.1[i] == ps[i]
        }),
{
    let n = ps.len() as int;
    lemma_tick_phase_inv(s, ps, t, n);
    let ps1 = spec_tick_phase(ps, t, n);
    assert(distinct_names(ps1));
    lemma_on_tick_phase_inv(s, ps1, t, n);
    let r2 = spec_on_tick_phase(s, ps1, t, n);
    lemma_finish_phase_inv(r2.0, r2.1, t, n);
    let r3 = spec_finish_phase(r2.0, r2.1, t, n);
    assert forall|k: int|
        0 <= k < r2.1.len() && r2.1[k].arrival_time >= t implies (#[trigger] r2.1[
        k
    ]).fresh() by {
        assert(r2.1[k].arrival_time == ps1[k].arrival_time);
        assert(ps1[k].arrival_time == ps[k].arrival_time);
        assert(ps[k].arrival_time >= t ==> ps1[k] == ps[k]);
    };
    lemma_arrival_phase_inv(r3.0, r2.1, t, n);
    let r4 = spec_arrival_phase(r3.0, r2.1, t, n);
    assert forall|k: int|
        0 <= k < r4.1.len() && r4.1[k].arrival_time > t implies !(#[trigger] r4.1[
        k
    ]).spec_running() by {
        assert(r4.1[k].arrival_time == r2.1[k].arrival_time);
        assert(r2.1[k].arrival_time > t ==> r4.1[k] == r2.1[k] && r2.1[k].fresh());
    };
    lemma_pre_tick_phase_inv(r4.0, r4.1, t, n);
    let r5 = spec_pre_tick_phase(r4.0, r4.1, t, n);

    if ps[i].spec_running() {
        assert(sel_view(s) == Some(ps[i].name@));
        assert(!ps[i].fresh());
        assert(ps[i].arrival_time < t);
        assert(ps1[i] == ps[i].spec_tick(t));
        if ps1[i].spec_finished() {
            assert(r2.1[i] == ps1[i]);
            assert(r4.1[i] == ps1[i]);
            assert(r5.1[i] == ps1[i]);
        } else {
            assert(ps1[i].spec_running());
            assert(r2 == (s, ps1));
            assert forall|j: int|
                0 <= j < r2.1.len() implies !((#[trigger] r2.1[j]).spec_finished() && r2.1[
                j
            ].finish_time == Some(t)) by {
                if r2.1[j].finish_time == Some(t) {
                    assert(sel_view(s) == Some(ps1[j].name@));
                    assert(ps1[j].name@ == ps[j].name@);
                    assert(ps[j].name@ == ps[i].name@);
                    assert(j == i);
                }
            };
            assert(r3.0 == r2.0);
            assert(r4.1[i] == ps1[i]);
            assert(sel_view(r4.0) == sel_view(s));
            assert(sel_view(r4.0) == Some(r4.1[i].name@));
            assert(!(r4.0 is Rr));
            assert(r5.1[i].spec_running());
        }
    }
    if ps[i].spec_finished() {
        assert(ps[i].state is None);
        assert(ps1[i] == ps[i]);
        assert(r2.1[i] == ps[i]);
        assert(ps[i].arrival_time != t);
        assert(r4.1[i] == ps[i]);
        assert(r5.1[i] == ps[i]);
    }
}

/// FCFS runs a dispatched job to completion: a process Running at a
/// tick boundary of an FCFS run is Running at every later boundary
/// until it has finished, so no other process's Running state ever
/// comes between its dispatch and its completion.
pub proof fn lemma_fcfs_runs_to_completion(
    s: SchedulerKindV,
    ps: Seq<Process>,
    i: int,
    t1: int,
    t2: int,
)
    requires
        forall|k: int| 0 <= k < ps.len() ==> (#[trigger] ps[k]).valid() && ps[k].fresh(),
        distinct_names(ps),
        pristine(s),
        s is Fcfs,
        0 <= t1 <= t2 <= i32::MAX,
        0 <= i < ps.len(),
        spec_sim(s, ps, t1).1[i].spec_running(),
    ensures
        spec_sim(s, ps, t2).1[i].spec_running() || spec_sim(s, ps, t2).1[i].spec_finished(),
    decreases t2 - t1,
{
    assert(sim_inv(s, ps, 0)) by {
        assert(all_light_valid(ps));
        assert(coupled(s, ps));
        assert(sched_inv(s, 0));
    };
    if t2 > t1 {
        lemma_fcfs_runs_to_completion(s, ps, i, t1, t2 - 1);
        lemma_sim_preserves_inv(s, ps, t2 - 1);
        let r = spec_sim(s, ps, t2 - 1);
        lemma_fcfs_step_no_preemption(r.0, r.1, (t2 - 1) as i32, i);
    }
}


/// One tick under non-preemptive SJF never preempts: a Running process
/// either finishes during the tick or is still Running at the next
/// boundary, and a finished process is never touched again.
pub proof fn lemma_rsjf_step_no_preemption(s: SchedulerKindV, ps: Seq<Process>, t: i32, i: int)
    requires
        sim_inv(s, ps, t),
        0 <= t < i32::MAX,
        s is RealSjf,
        0 <= i < ps.len(),
    ensures
        ({
            let r = spec_step(s, ps, t);
            &&& ps[i].spec_running() ==> r.1[i].spec_running() || r.1[i].spec_finished()
            &&& ps[i].spec_finished() ==> r.1[i] == ps[i]
        }),
{
    let n = ps.len() as int;
    lemma_tick_phase_inv(s, ps, t, n);
    let ps1 = spec_tick_phase(ps, t, n);
    assert(distinct_names(ps1));
    lemma_on_tick_phase_inv(s, ps1, t, n);
    let r2 = spec_on_tick_phase(s, ps1, t, n);
    lemma_finish_phase_inv(r2.0, r2.1, t, n);
    let r3 = spec_finish_phase(r2.0, r2.1, t, n);
    assert forall|k: int|
        0 <= k < r2.1.len() && r2.1[k].arrival_time >= t implies (#[trigger] r2.1[
        k
    ]).fresh() by {
        assert(r2.1[k].arrival_time == ps1[k].arrival_time);
        assert(ps1[k].arrival_time == ps[k].arrival_time);
        assert(ps[k].arrival_time >= t ==> ps1[k] == ps[k]);
    };
    lemma_arrival_phase_inv(r3.0, r2.1, t, n);
    let r4 = spec_arrival_phase(r3.0, r2.1, t, n);
    assert forall|k: int|
        0 <= k < r4.1.len() && r4.1[k].arrival_time > t implies !(#[trigger] r4.1[
        k
    ]).spec_running() by {
        assert(r4.1[k].arrival_time == r2.1[k].arrival_time);
        assert(r2.1[k].arrival_time > t ==> r4.1[k] == r2.1[k] && r2.1[k].fresh());
    };
    lemma_pre_tick_phase_inv(r4.0, r4.1, t, n);
    let r5 = spec_pre_tick_phase(r4.0, r4.1, t, n);

    if ps[i].spec_running() {
        assert(sel_view(s) == Some(ps[i].name@));
        assert(!ps[i].fresh());
        assert(ps[i].arrival_time < t);
        assert(ps1[i] == ps[i].spec_tick(t));
        if ps1[i].spec_finished() {
            assert(r2.1[i] == ps1[i]);
            assert(r4.1[i] == ps1[i]);
            assert(r5.1[i] == ps1[i]);
        } else {
            assert(ps1[i].spec_running());
            assert(r2 == (s, ps1));
            assert forall|j: int|
                0 <= j < r2.1.len() implies !((#[trigger] r2.1[j]).spec_finished() && r2.1[
                j
            ].finish_time == Some(t)) by {
                if r2.1[j].finish_time == Some(t) {
                    assert(sel_view(s) == Some(ps1[j].name@));
                    assert(ps1[j].name@ == ps[j].name@);
                    assert(ps[j].name@ == ps[i].name@);
                    assert(j == i);
                }
            };
            assert(r3.0 == r2.0);
            assert(r4.1[i] == ps1[i]);
            assert(sel_view(r4.0) == sel_view(s));
            assert(sel_view(r4.0) == Some(r4.1[i].name@));
            assert(!(r4.0 is Rr));
            assert(r5.1[i].spec_running());
        }
    }
    if ps[i].spec_finished() {
        assert(ps[i].state is None);
        assert(ps1[i] == ps[i]);
        assert(r2.1[i] == ps[i]);
        assert(ps[i].arrival_time != t);
        assert(r4.1[i] == ps[i]);
        assert(r5.1[i] == ps[i]);
    }
}

/// Non-preemptive SJF runs a dispatched job to completion: a process
/// Running at a tick boundary of such a run is Running at every later
/// boundary until it has finished.
pub proof fn lemma_rsjf_runs_to_completion(
    s: SchedulerKindV,
    ps: Seq<Process>,
    i: int,
    t1: int,
    t2: int,
)
    requires
        forall|k: int| 0 <= k < ps.len() ==> (#[trigger] ps[k]).valid() && ps[k].fresh(),
        distinct_names(ps),
        pristine(s),
        s is RealSjf,
        0 <= t1 <= t2 <= i32::MAX,
        0 <= i < ps.len(),
        spec_sim(s, ps, t1).1[i].spec_running(),
    ensures
        spec_sim(s, ps, t2).1[i].spec_running() || spec_sim(s, ps, t2).1[i].spec_finished(),
    decreases t2 - t1,
{
    assert(sim_inv(s, ps, 0)) by {
        assert(all_light_valid(ps));
        assert(coupled(s, ps));
        assert(sched_inv(s, 0));
    };
    if t2 > t1 {
        lemma_rsjf_runs_to_completion(s, ps, i, t1, t2 - 1);
        lemma_sim_preserves_inv(s, ps, t2 - 1);
        let r = spec_sim(s, ps, t2 - 1);
        lemma_rsjf_step_no_preemption(r.0, r.1, (t2 - 1) as i32, i);
    }
}


/// One whole tick preserves the SJF bookkeeping mirror.
proof fn lemma_sjf_step_sync(s: SchedulerKindV, ps: Seq<Process>, t: i32)
    requires
        sim_inv(s, ps, t),
        sjf_sync(s, ps, t),
        s is Sjf,
        0 <= t < i32::MAX,
    ensures
        ({
            let r = spec_step(s, ps, t);
            sjf_sync(r.0, r.1, (t + 1) as i32)
        }),
{
    let v = s->Sjf_0;
    let n = ps.len() as int;
    lemma_tick_phase_inv(s, ps, t, n);
    let ps1 = spec_tick_phase(ps, t, n);
    assert(distinct_names(ps1));
    lemma_sjf_on_tick_sync(v, ps, t, n);
    let r2 = spec_on_tick_phase(s, ps1, t, n);
    let v2 = r2.0->Sjf_0;
    assert(r2.1 == ps1);
    let len2 = v2.jobs.len() as int;
    assert forall|i: int| 0 <= i < ps1.len() implies (match sjf_find_name(
        v2.jobs,
        (#[trigger] ps1[i]).name@,
        len2,
    ) {
        Some(j) => (ps1[i].time_remaining != 0 && ps1[i].arrival_time < t
            && v2.jobs[j].time_remaining == ps1[i].time_remaining && v2.jobs[j].arrival_time
            == ps1[i].arrival_time) || (ps1[i].time_remaining == 0 && ps1[i].finish_time
            == Some(t)),
        None => !(ps1[i].time_remaining != 0 && ps1[i].arrival_time < t),
    }) by {
        assert(ps1[i].name@ == ps[i].name@);
        assert(ps1[i].arrival_time == ps[i].arrival_time);
        if ps[i].time_remaining == 0 {
            assert(ps1[i] == ps[i]);
        }
        if sjf_live(ps[i], t) && ps1[i].time_remaining == 0 {
            assert(ps1[i] == ps[i].spec_tick(t));
            assert(ps1[i].finish_time == Some(t));
        }
    };
    lemma_sjf_finish_sync(v2, ps1, t, n);
    let r3 = spec_finish_phase(r2.0, r2.1, t, n);
    let v3 = r3.0->Sjf_0;
    assert forall|i: int|
        0 <= i < ps1.len() && ps1[i].arrival_time >= t implies (#[trigger] ps1[
        i
    ]).time_remaining != 0 by {
        assert(ps[i].arrival_time >= t ==> ps[i].fresh() && ps1[i] == ps[i]);
    };
    lemma_sjf_arrival_sync(v3, ps1, t, n);
    let r4 = spec_arrival_phase(r3.0, r2.1, t, n);
    let v4 = r4.0->Sjf_0;
    lemma_finish_phase_inv(r2.0, r2.1, t, n);
    assert forall|k: int|
        0 <= k < r2.1.len() && r2.1[k].arrival_time >= t implies (#[trigger] r2.1[
        k
    ]).fresh() by {
        assert(ps[k].arrival_time >= t ==> ps1[k] == ps[k]);
    };
    lemma_arrival_phase_inv(r3.0, r2.1, t, n);
    lemma_pre_tick_phase_inv(r4.0, r4.1, t, n);
    let r5 = spec_pre_tick_phase(r4.0, r4.1, t, n);
    assert(r5.0 == r4.0);
    let t2 = (t + 1) as i32;
    let len4 = v4.jobs.len() as int;
    assert forall|i: int| 0 <= i < r5.1.len() implies (match sjf_find_name(
        v4.jobs,
        (#[trigger] r5.1[i]).name@,
        len4,
    ) {
        Some(j) => sjf_live(r5.1[i], t2) && v4.jobs[j].time_remaining == r5.1[i].time_remaining
            && v4.jobs[j].arrival_time == r5.1[i].arrival_time,
        None => !sjf_live(r5.1[i], t2),
    }) by {
        assert(r5.1[i].name@ == r4.1[i].name@ && r4.1[i].name@ == ps1[i].name@);
        assert(r5.1[i].time_remaining == r4.1[i].time_remaining && r4.1[i].time_remaining
            == ps1[i].time_remaining);
        assert(r5.1[i].arrival_time == r4.1[i].arrival_time && r4.1[i].arrival_time
            == ps1[i].arrival_time);
    };
}

/// The SJF bookkeeping mirror holds at every tick boundary of a run.
proof fn lemma_sjf_sim_sync(s: SchedulerKindV, ps: Seq<Process>, t: int)
    requires
        sim_inv(s, ps, 0),
        sjf_sync(s, ps, 0),
        s is Sjf,
        0 <= t <= i32::MAX,
    ensures
        ({
            let r = spec_sim(s, ps, t);
            sjf_sync(r.0, r.1, t as i32) && r.0 is Sjf
        }),
    decreases t,
{
    if t > 0 {
        lemma_sjf_sim_sync(s, ps, t - 1);
        lemma_sim_preserves_inv(s, ps, t - 1);
        let r = spec_sim(s, ps, t - 1);
        lemma_sjf_step_sync(r.0, r.1, (t - 1) as i32);
        lemma_step_preserves_inv(r.0, r.1, (t - 1) as i32);
        assert(((t - 1) as i32 + 1) as i32 == t as i32);
    }
}

/// Preemptive SJF always runs a shortest job: at every tick boundary of
/// an SJF run, the Running process's remaining burst is the minimum
/// among all arrived, unfinished processes, with ties broken by the
/// earliest arrival.
pub proof fn lemma_sjf_running_has_min_burst(s: SchedulerKindV, ps: Seq<Process>, t: int)
    requires
        forall|k: int| 0 <= k < ps.len() ==> (#[trigger] ps[k]).valid() && ps[k].fresh(),
        distinct_names(ps),
        pristine(s),
        s is Sjf,
        0 <= t <= i32::MAX,
    ensures
        ({
            let r = spec_sim(s, ps, t);
            forall|i: int, k: int|
                0 <= i < r.1.len() && 0 <= k < r.1.len() && r.1[i].spec_running() && sjf_live(
                    #[trigger] r.1[k],
                    t as i32,
                ) ==> !(r.1[k].time_remaining < (#[trigger] r.1[i]).time_remaining || (
                r.1[k].time_remaining == r.1[i].time_remaining && r.1[k].arrival_time
                    < r.1[i].arrival_time))
        }),
{
    assert(sim_inv(s, ps, 0)) by {
        assert(all_light_valid(ps));
        assert(coupled(s, ps));
        assert(sched_inv(s, 0));
    };
    assert(sjf_sync(s, ps, 0)) by {
        let v = s->Sjf_0;
        assert forall|i: int| 0 <= i < ps.len() implies sjf_find_name(
            v.jobs,
            (#[trigger] ps[i]).name@,
            v.jobs.len() as int,
        ) is None by {
            lemma_sjf_find_name_props(v.jobs, ps[i].name@, v.jobs.len() as int);
        };
    };
    lemma_sim_preserves_inv(s, ps, t);
    lemma_sjf_sim_sync(s, ps, t);
    let r = spec_sim(s, ps, t);
    let v = r.0->Sjf_0;
    let len = v.jobs.len() as int;
    assert forall|i: int, k: int|
        0 <= i < r.1.len() && 0 <= k < r.1.len() && r.1[i].spec_running() && sjf_live(
            #[trigger] r.1[k],
            t as i32,
        ) implies !(r.1[k].time_remaining < (#[trigger] r.1[i]).time_remaining || (
    r.1[k].time_remaining == r.1[i].time_remaining && r.1[k].arrival_time
        < r.1[i].arrival_time)) by {
        assert(sel_view(r.0) == Some(r.1[i].name@));
        assert(v.shortest_job is Some && v.shortest_job.unwrap()@ == r.1[i].name@);
        assert(!r.1[i].fresh());
        assert(sjf_live(r.1[i], t as i32));
        let m = sjf_find_name(v.jobs, r.1[i].name@, len).unwrap();
        let jk = sjf_find_name(v.jobs, r.1[k].name@, len).unwrap();
        assert(v.jobs[m].time_remaining == r.1[i].time_remaining && v.jobs[m].arrival_time
            == r.1[i].arrival_time);
        assert(v.jobs[jk].time_remaining == r.1[k].time_remaining && v.jobs[jk].arrival_time
            == r.1[k].arrival_time);
        assert(0 <= jk < v.jobs.len()) by {
            lemma_sjf_find_name_props(v.jobs, r.1[k].name@, len);
        };
        assert(!sjf_key_lt(v.jobs[jk], v.jobs[m]));
    };
}


/// Step 2 of a Round-Robin tick spends exactly one quantum unit on the
/// dispatched process: observing it decrements the remainder, and on
/// exhaustion requeues it and releases the CPU; observing any other
/// process changes nothing.
proof fn lemma_rr_on_tick_fold(v: RrV, ps: Seq<Process>, t: i32, n: int, i: int)
    requires
        0 <= n <= ps.len(),
        0 <= i < ps.len(),
        RR::wf(v),
        v.selected is Some && v.selected.unwrap()@ == ps[i].name@,
        forall|j: int| 0 <= j < ps.len() && j != i ==> (#[trigger] ps[j]).name@ != ps[i].name@,
    ensures
        ({
            let r = spec_on_tick_phase(SchedulerKindV::Rr(v), ps, t, n);
            match r.0 {
                SchedulerKindV::Rr(v2) => {
                    &&& r.1.len() == ps.len()
                    &&& forall|j: int| n <= j < ps.len() ==> r.1[j] == ps[j]
                    &&& v2.quantum == v.quantum
                    &&& (if i < n && ps[i].time_remaining != 0 && ps[i].arrival_time <= t - 1 {
                        if v.quantum_remaining == 1 {
                            v2.selected is None && v2.quantum_remaining == 0
                        } else {
                            v2 == (RrV {
                                quantum_remaining: (v.quantum_remaining - 1) as i32,
                                ..v
                            })
                        }
                    } else {
                        v2 == v
                    })
                },
                _ => false,
            }
        }),
    decreases n,
{
    if n > 0 {
        lemma_rr_on_tick_fold(v, ps, t, n - 1, i);
        let prev = spec_on_tick_phase(SchedulerKindV::Rr(v), ps, t, n - 1);
        let v1 = prev.0->Rr_0;
        assert(prev.1[n - 1] == ps[n - 1]);
        if n - 1 != i {
            assert(match v1.selected {
                Some(sl) => sl@ != ps[n - 1].name@,
                None => true,
            });
        }
    }
}

/// Across one tick of a Round-Robin run, a process Running at both of
/// its boundaries either has the quantum remainder decremented by one,
/// or was requeued on exhaustion and dispatched afresh with the full
/// quantum.  Since the remainder starts at `quantum`, strictly
/// decreases with every consecutive Running tick, and stays positive
/// while the process holds the CPU, no process is Running for more
/// than `quantum` consecutive ticks between a dispatch and the requeue
/// that follows it.
pub proof fn lemma_rr_step_spends_quantum(s: SchedulerKindV, ps: Seq<Process>, t: i32, i: int)
    requires
        sim_inv(s, ps, t),
        s is Rr,
        RR::wf(s->Rr_0),
        s->Rr_0.quantum_remaining <= s->Rr_0.quantum,
        0 <= t < i32::MAX,
        0 <= i < ps.len(),
        ps[i].spec_running(),
    ensures
        ({
            let r = spec_step(s, ps, t);
            &&& r.0 is Rr
            &&& r.0->Rr_0.quantum == s->Rr_0.quantum
            &&& r.0->Rr_0.quantum_remaining <= r.0->Rr_0.quantum
            &&& (r.1[i].spec_running() ==> r.0->Rr_0.quantum_remaining == s->Rr_0.quantum_remaining
                - 1 || r.0->Rr_0.quantum_remaining == s->Rr_0.quantum)
        }),
{
    let v = s->Rr_0;
    let n = ps.len() as int;
    lemma_tick_phase_inv(s, ps, t, n);
    let ps1 = spec_tick_phase(ps, t, n);
    assert(distinct_names(ps1));
    lemma_on_tick_phase_inv(s, ps1, t, n);
    assert(sel_view(s) == Some(ps[i].name@));
    assert(ps1[i].name@ == ps[i].name@);
    lemma_rr_on_tick_fold(v, ps1, t, n, i);
    let r2 = spec_on_tick_phase(s, ps1, t, n);
    let v2 = r2.0->Rr_0;
    lemma_finish_phase_inv(r2.0, r2.1, t, n);
    let r3 = spec_finish_phase(r2.0, r2.1, t, n);
    assert forall|k: int|
        0 <= k < r2.1.len() && r2.1[k].arrival_time >= t implies (#[trigger] r2.1[
        k
    ]).fresh() by {
        assert(ps[k].arrival_time >= t ==> ps1[k] == ps[k]);
    };
    lemma_arrival_phase_inv(r3.0, r2.1, t, n);
    let r4 = spec_arrival_phase(r3.0, r2.1, t, n);
    assert forall|k: int|
        0 <= k < r4.1.len() && r4.1[k].arrival_time > t implies !(#[trigger] r4.1[
        k
    ]).spec_running() by {
        assert(r4.1[k].arrival_time == r2.1[k].arrival_time);
        assert(r2.1[k].arrival_time > t ==> r4.1[k] == r2.1[k] && r2.1[k].fresh());
    };
    lemma_pre_tick_phase_inv(r4.0, r4.1, t, n);
    let r5 = spec_pre_tick_phase(r4.0, r4.1, t, n);

    assert(!ps[i].fresh());
    assert(ps[i].arrival_time < t);
    assert(ps1[i] == ps[i].spec_tick(t));
    if ps1[i].spec_finished() {
        assert(r2.1[i] == ps1[i]);
        assert(r4.1[i] == ps1[i]);
        assert(r5.1[i] == ps1[i]);
        assert(!r5.1[i].spec_running());
    } else {
        assert(ps1[i].spec_running());
        assert forall|j: int|
            0 <= j < r2.1.len() implies !((#[trigger] r2.1[j]).spec_finished() && r2.1[
            j
        ].finish_time == Some(t)) by {
            if r2.1[j].finish_time == Some(t) {
                assert(sel_view(s) == Some(ps1[j].name@));
                assert(ps1[j].name@ == ps[j].name@);
                assert(ps[j].name@ == ps[i].name@);
                assert(j == i);
            }
        };
        assert(r3.0 == r2.0);
    }
}

/// The simulation is a function of the workload alone: together with
/// the contract of `CPU::run`, two runs of equal workloads yield one
/// and the same event log and one and the same final metrics.
pub proof fn lemma_run_deterministic(a: ScheduleModel, b: ScheduleModel)
    requires
        a.scheduler@ == b.scheduler@,
        a.process_list@ == b.process_list@,
        a.time_units == b.time_units,
    ensures
        spec_sim(a.scheduler@, a.process_list@, a.time_units + 1) == spec_sim(
            b.scheduler@,
            b.process_list@,
            b.time_units + 1,
        ),
{
}

} // verus!
