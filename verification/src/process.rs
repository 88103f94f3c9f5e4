//! The record kept for one simulated process: its static description
//! (name, arrival time, burst length) and the state and metrics that the
//! simulation updates tick by tick.

use vstd::prelude::*;

verus! {

/// Dispatch state of a process that has arrived and not yet finished.
/// A process that has not arrived, or that has finished, carries `None`.
#[derive(Clone, Copy, PartialEq, Eq, Structural, Debug)]
pub enum ProcessState {
    Ready,
    Running,
}

/// One simulated process.  Metrics accumulate tick by tick: `wait_time`
/// counts ticks spent Ready, `turnaround_time` counts every tick after
/// arrival and before finishing, and `response_time` counts ticks from
/// arrival until the first dispatch.
pub struct Process {
    pub name: String,
    pub arrival_time: i32,
    pub burst_time: i32,
    pub time_remaining: i32,
    pub state: Option<ProcessState>,
    pub turnaround_time: i32,
    pub response_time: i32,
    pub wait_time: i32,
    pub last_selection_time: Option<i32>,
    pub finish_time: Option<i32>,
}

impl Process {
    /// Well-formedness of a process record.  Besides the field ranges it
    /// carries the metric law of the simulation: the turnaround time is
    /// always the wait time plus the burst units already executed.
    pub open spec fn valid(self) -> bool {
        &&& self.arrival_time >= 0
        &&& self.burst_time > 0
        &&& 0 <= self.time_remaining <= self.burst_time
        &&& self.wait_time >= 0
        &&& self.response_time >= 0
        &&& self.response_time <= self.wait_time
        &&& self.turnaround_time == self.wait_time + (self.burst_time - self.time_remaining)
        &&& self.state == Some(ProcessState::Running) ==> self.time_remaining > 0
        &&& self.time_remaining == 0 ==> self.state is None
        &&& (self.finish_time is Some <==> self.time_remaining == 0)
    }

    /// A process as the workload model delivers it: not yet arrived,
    /// never ticked, metrics at zero.
    pub open spec fn fresh(self) -> bool {
        &&& self.time_remaining == self.burst_time
        &&& self.state is None
        &&& self.turnaround_time == 0
        &&& self.response_time == 0
        &&& self.wait_time == 0
        &&& self.last_selection_time is None
        &&& self.finish_time is None
    }

    pub open spec fn spec_running(self) -> bool {
        self.state == Some(ProcessState::Running)
    }

    pub open spec fn spec_finished(self) -> bool {
        self.time_remaining == 0
    }

    pub open spec fn spec_arrived(self, time: i32) -> bool {
        self.arrival_time <= time
    }

    /// What `select` does: mark Running and stamp the selection time.
    pub open spec fn spec_select(self, cur_time: i32) -> Process {
        Process {
            state: Some(ProcessState::Running),
            last_selection_time: Some(cur_time),
            ..self
        }
    }

    /// What `deselect` does: mark Ready, unless the process has finished
    /// (finished is terminal and is never overwritten).
    pub open spec fn spec_deselect(self) -> Process {
        if self.time_remaining == 0 {
            self
        } else {
            Process { state: Some(ProcessState::Ready), ..self }
        }
    }

    /// What `tick` does: advance this process by the unit ending at
    /// `cur_time`.  A process that has not arrived or has finished
    /// (state `None`) is untouched.  A Ready process accumulates wait and
    /// turnaround time, and response time while it has never run.  A
    /// Running process accumulates turnaround time and burns one burst
    /// unit; reaching zero it finishes, with the finish time recorded.
    pub open spec fn spec_tick(self, cur_time: i32) -> Process {
        match self.state {
            None => self,
            Some(ProcessState::Ready) => Process {
                turnaround_time: (self.turnaround_time + 1) as i32,
                wait_time: (self.wait_time + 1) as i32,
                response_time: if self.time_remaining == self.burst_time {
                    (self.response_time + 1) as i32
                } else {
                    self.response_time
                },
                ..self
            },
            Some(ProcessState::Running) => {
                let advanced = Process {
                    turnaround_time: (self.turnaround_time + 1) as i32,
                    time_remaining: (self.time_remaining - 1) as i32,
                    ..self
                };
                if advanced.time_remaining == 0 {
                    Process { state: None, finish_time: Some(cur_time), ..advanced }
                } else {
                    advanced
                }
            },
        }
    }

    /// Builds a process that has not yet arrived, with its metrics at zero.
    pub fn new(name: String, arrival_time: i32, burst_time: i32) -> (p: Process)
        requires
            arrival_time >= 0,
            burst_time > 0,
        ensures
            p == (Process {
                name: name,
                arrival_time: arrival_time,
                burst_time: burst_time,
                time_remaining: burst_time,
                state: None,
                turnaround_time: 0,
                response_time: 0,
                wait_time: 0,
                last_selection_time: None,
                finish_time: None,
            }),
            p.valid(),
            p.fresh(),
    {
        Process {
            name,
            arrival_time,
            burst_time,
            time_remaining: burst_time,
            state: None,
            turnaround_time: 0,
            response_time: 0,
            wait_time: 0,
            last_selection_time: None,
            finish_time: None,
        }
    }

    /// Advances this process by the one time unit that ends at `cur_time`.
    pub fn tick(&mut self, cur_time: i32)
        requires
            old(self).valid(),
            old(self).state is Some ==> old(self).turnaround_time < i32::MAX,
        ensures
            *final(self) == old(self).spec_tick(cur_time),
            final(self).valid(),
    {
        let st = self.state;
        if let Some(state) = st {
            self.turnaround_time = self.turnaround_time + 1;
            match state {
                ProcessState::Ready => {
                    self.wait_time = self.wait_time + 1;
                    if self.burst_time == self.time_remaining {
                        self.response_time = self.response_time + 1;
                    }
                },
                ProcessState::Running => {
                    self.time_remaining = self.time_remaining - 1;
                    if self.time_remaining == 0 {
                        self.state = None;
                        self.finish_time = Some(cur_time);
                    }
                },
            }
        }
    }

    /// Marks the process Running and records `cur_time` as its last
    /// selection time; the engine logs one "selected" event per stamp.
    pub fn select(&mut self, cur_time: i32)
        requires
            old(self).valid(),
            old(self).time_remaining > 0,
        ensures
            *final(self) == old(self).spec_select(cur_time),
            final(self).valid(),
    {
        self.state = Some(ProcessState::Running);
        self.last_selection_time = Some(cur_time);
    }

    /// Marks the process Ready, unless it has already finished.
    pub fn deselect(&mut self)
        requires
            old(self).valid(),
        ensures
            *final(self) == old(self).spec_deselect(),
            final(self).valid(),
    {
        if !self.finished() {
            self.state = Some(ProcessState::Ready);
        }
    }

    /// True iff the process has no burst left.
    pub fn finished(&self) -> (r: bool)
        ensures
            r == self.spec_finished(),
    {
        self.time_remaining == 0
    }

    /// True iff the process has arrived at or before `time`.
    pub fn arrived(&self, time: i32) -> (r: bool)
        ensures
            r == self.spec_arrived(time),
    {
        self.arrival_time <= time
    }

    /// True iff the process currently occupies the CPU.
    pub fn is_running(&self) -> (r: bool)
        ensures
            r == self.spec_running(),
    {
        matches!(self.state, Some(ProcessState::Running))
    }
}

/// The metric law every process obeys throughout a run: the turnaround
/// time splits exactly into the time spent waiting plus the burst units
/// executed, and a finished process has executed its whole burst.
pub proof fn lemma_turnaround_decomposition(p: Process)
    requires
        p.valid(),
    ensures
        p.turnaround_time == p.wait_time + (p.burst_time - p.time_remaining),
        p.spec_finished() ==> p.turnaround_time == p.wait_time + p.burst_time,
{
}

} // verus!
