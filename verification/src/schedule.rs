//! The workload model: the fixed description of one simulation run, and
//! the closed set of scheduling policies a run can be driven by.

use vstd::prelude::*;

use crate::fcfs::FCFS;
use crate::fcfs::FcfsV;
use crate::process::Process;
use crate::real_sjf::RealSjf;
use crate::real_sjf::RealSjfV;
use crate::rr::RR;
use crate::rr::RrV;
use crate::scheduler::Scheduler;
use crate::sjf::SJF;
use crate::sjf::SjfV;

verus! {

/// The closed set of scheduling policies, one variant per policy.
pub enum SchedulerKind {
    Fcfs(FCFS),
    Sjf(SJF),
    RealSjf(RealSjf),
    Rr(RR),
}

/// Mathematical model of a policy state, tagged by policy.
pub ghost enum SchedulerKindV {
    Fcfs(FcfsV),
    Sjf(SjfV),
    RealSjf(RealSjfV),
    Rr(RrV),
}

impl View for SchedulerKind {
    type V = SchedulerKindV;

    open spec fn view(&self) -> SchedulerKindV {
        match self {
            SchedulerKind::Fcfs(s) => SchedulerKindV::Fcfs(s@),
            SchedulerKind::Sjf(s) => SchedulerKindV::Sjf(s@),
            SchedulerKind::RealSjf(s) => SchedulerKindV::RealSjf(s@),
            SchedulerKind::Rr(s) => SchedulerKindV::Rr(s@),
        }
    }
}

impl Scheduler for SchedulerKind {
    open spec fn wf(v: SchedulerKindV) -> bool {
        match v {
            SchedulerKindV::Fcfs(s) => FCFS::wf(s),
            SchedulerKindV::Sjf(s) => SJF::wf(s),
            SchedulerKindV::RealSjf(s) => RealSjf::wf(s),
            SchedulerKindV::Rr(s) => RR::wf(s),
        }
    }

    open spec fn spec_selected(v: SchedulerKindV) -> Option<String> {
        match v {
            SchedulerKindV::Fcfs(s) => FCFS::spec_selected(s),
            SchedulerKindV::Sjf(s) => SJF::spec_selected(s),
            SchedulerKindV::RealSjf(s) => RealSjf::spec_selected(s),
            SchedulerKindV::Rr(s) => RR::spec_selected(s),
        }
    }

    open spec fn spec_name(v: SchedulerKindV) -> Seq<char> {
        match v {
            SchedulerKindV::Fcfs(s) => FCFS::spec_name(s),
            SchedulerKindV::Sjf(s) => SJF::spec_name(s),
            SchedulerKindV::RealSjf(s) => RealSjf::spec_name(s),
            SchedulerKindV::Rr(s) => RR::spec_name(s),
        }
    }

    open spec fn spec_on_arrive(v: SchedulerKindV, p: Process, time: i32) -> (
        SchedulerKindV,
        Process,
    ) {
        match v {
            SchedulerKindV::Fcfs(s) => {
                let r = FCFS::spec_on_arrive(s, p, time);
                (SchedulerKindV::Fcfs(r.0), r.1)
            },
            SchedulerKindV::Sjf(s) => {
                let r = SJF::spec_on_arrive(s, p, time);
                (SchedulerKindV::Sjf(r.0), r.1)
            },
            SchedulerKindV::RealSjf(s) => {
                let r = RealSjf::spec_on_arrive(s, p, time);
                (SchedulerKindV::RealSjf(r.0), r.1)
            },
            SchedulerKindV::Rr(s) => {
                let r = RR::spec_on_arrive(s, p, time);
                (SchedulerKindV::Rr(r.0), r.1)
            },
        }
    }

    open spec fn spec_pre_tick(v: SchedulerKindV, p: Process, time: i32) -> (
        SchedulerKindV,
        Process,
    ) {
        match v {
            SchedulerKindV::Fcfs(s) => {
                let r = FCFS::spec_pre_tick(s, p, time);
                (SchedulerKindV::Fcfs(r.0), r.1)
            },
            SchedulerKindV::Sjf(s) => {
                let r = SJF::spec_pre_tick(s, p, time);
                (SchedulerKindV::Sjf(r.0), r.1)
            },
            SchedulerKindV::RealSjf(s) => {
                let r = RealSjf::spec_pre_tick(s, p, time);
                (SchedulerKindV::RealSjf(r.0), r.1)
            },
            SchedulerKindV::Rr(s) => {
                let r = RR::spec_pre_tick(s, p, time);
                (SchedulerKindV::Rr(r.0), r.1)
            },
        }
    }

    open spec fn spec_on_tick(v: SchedulerKindV, p: Process, time: i32) -> (
        SchedulerKindV,
        Process,
    ) {
        match v {
            SchedulerKindV::Fcfs(s) => {
                let r = FCFS::spec_on_tick(s, p, time);
                (SchedulerKindV::Fcfs(r.0), r.1)
            },
            SchedulerKindV::Sjf(s) => {
                let r = SJF::spec_on_tick(s, p, time);
                (SchedulerKindV::Sjf(r.0), r.1)
            },
            SchedulerKindV::RealSjf(s) => {
                let r = RealSjf::spec_on_tick(s, p, time);
                (SchedulerKindV::RealSjf(r.0), r.1)
            },
            SchedulerKindV::Rr(s) => {
                let r = RR::spec_on_tick(s, p, time);
                (SchedulerKindV::Rr(r.0), r.1)
            },
        }
    }

    open spec fn spec_on_finish(v: SchedulerKindV, p: Process, time: i32) -> SchedulerKindV {
        match v {
            SchedulerKindV::Fcfs(s) => SchedulerKindV::Fcfs(FCFS::spec_on_finish(s, p, time)),
            SchedulerKindV::Sjf(s) => SchedulerKindV::Sjf(SJF::spec_on_finish(s, p, time)),
            SchedulerKindV::RealSjf(s) => SchedulerKindV::RealSjf(
                RealSjf::spec_on_finish(s, p, time),
            ),
            SchedulerKindV::Rr(s) => SchedulerKindV::Rr(RR::spec_on_finish(s, p, time)),
        }
    }

    fn on_arrive(&mut self, process: &mut Process, time: i32) {
        match self {
            SchedulerKind::Fcfs(s) => s.on_arrive(process, time),
            SchedulerKind::Sjf(s) => s.on_arrive(process, time),
            SchedulerKind::RealSjf(s) => s.on_arrive(process, time),
            SchedulerKind::Rr(s) => s.on_arrive(process, time),
        }
    }

    fn pre_tick(&mut self, process: &mut Process, time: i32) {
        match self {
            SchedulerKind::Fcfs(s) => s.pre_tick(process, time),
            SchedulerKind::Sjf(s) => s.pre_tick(process, time),
            SchedulerKind::RealSjf(s) => s.pre_tick(process, time),
            SchedulerKind::Rr(s) => s.pre_tick(process, time),
        }
    }

    fn on_tick(&mut self, process: &mut Process, time: i32) {
        match self {
            SchedulerKind::Fcfs(s) => s.on_tick(process, time),
            SchedulerKind::Sjf(s) => s.on_tick(process, time),
            SchedulerKind::RealSjf(s) => s.on_tick(process, time),
            SchedulerKind::Rr(s) => s.on_tick(process, time),
        }
    }

    fn on_finish(&mut self, process: &Process, time: i32) {
        match self {
            SchedulerKind::Fcfs(s) => s.on_finish(process, time),
            SchedulerKind::Sjf(s) => s.on_finish(process, time),
            SchedulerKind::RealSjf(s) => s.on_finish(process, time),
            SchedulerKind::Rr(s) => s.on_finish(process, time),
        }
    }

    fn selected_process_name(&self) -> (r: Option<String>) {
        match self {
            SchedulerKind::Fcfs(s) => s.selected_process_name(),
            SchedulerKind::Sjf(s) => s.selected_process_name(),
            SchedulerKind::RealSjf(s) => s.selected_process_name(),
            SchedulerKind::Rr(s) => s.selected_process_name(),
        }
    }

    fn descriptive_name(&self) -> (r: String) {
        match self {
            SchedulerKind::Fcfs(s) => s.descriptive_name(),
            SchedulerKind::Sjf(s) => s.descriptive_name(),
            SchedulerKind::RealSjf(s) => s.descriptive_name(),
            SchedulerKind::Rr(s) => s.descriptive_name(),
        }
    }
}

/// The fixed description of one run: how many processes the workload
/// declares, how many time units to simulate, the chosen policy, and
/// the initial process list in workload order.
pub struct ScheduleModel {
    pub number_of_processes: i32,
    pub time_units: i32,
    pub scheduler: SchedulerKind,
    pub process_list: Vec<Process>,
}

impl ScheduleModel {
    /// A workload the engine accepts: a bounded non-negative run length,
    /// well-formed policy bookkeeping, and fresh, well-formed processes.
    pub open spec fn wf(self) -> bool {
        &&& 0 <= self.time_units < i32::MAX
        &&& SchedulerKind::wf(self.scheduler@)
        &&& forall|i: int|
            0 <= i < self.process_list@.len() ==> (#[trigger] self.process_list@[i]).valid()
                && self.process_list@[i].fresh()
    }
}

} // verus!
