//! Round-Robin: Ready processes wait in a FIFO queue; the head runs for
//! at most `quantum` consecutive ticks, then is requeued at the tail and
//! the next head is promoted.  New arrivals join the tail.

use vstd::prelude::*;

use crate::process::Process;
use crate::scheduler::Scheduler;

verus! {

/// The Round-Robin policy state: the configured quantum, the ticks the
/// current holder may still run, the FIFO queue of waiting process
/// names, and the name of the process holding the CPU.
pub struct RR {
    pub quantum: i32,
    pub quantum_remaining: i32,
    pub process_queue: Vec<String>,
    pub selected_process: Option<String>,
}

/// Mathematical model of the Round-Robin state.
pub ghost struct RrV {
    pub quantum: i32,
    pub quantum_remaining: i32,
    pub queue: Seq<String>,
    pub selected: Option<String>,
}

impl View for RR {
    type V = RrV;

    open spec fn view(&self) -> RrV {
        RrV {
            quantum: self.quantum,
            quantum_remaining: self.quantum_remaining,
            queue: self.process_queue@,
            selected: self.selected_process,
        }
    }
}

impl RR {
    /// A Round-Robin scheduler with an empty queue and a full quantum.
    pub fn new(quantum: i32) -> (r: RR)
        requires
            quantum >= 1,
        ensures
            r@ == (RrV {
                quantum: quantum,
                quantum_remaining: quantum,
                queue: Seq::empty(),
                selected: None,
            }),
            RR::wf(r@),
    {
        RR {
            quantum,
            quantum_remaining: quantum,
            process_queue: Vec::new(),
            selected_process: None,
        }
    }

    /// The configured quantum.
    pub fn quantum(&self) -> (r: i32)
        ensures
            r == self@.quantum,
    {
        self.quantum
    }
}

impl Scheduler for RR {
    /// The quantum is positive, and while a process holds the CPU some
    /// of it is always left to spend.
    open spec fn wf(v: RrV) -> bool {
        &&& v.quantum >= 1
        &&& v.selected is Some ==> v.quantum_remaining >= 1
    }

    open spec fn spec_selected(v: RrV) -> Option<String> {
        v.selected
    }

    open spec fn spec_name(v: Self::V) -> Seq<char> {
        "Round-Robin"@
    }

    /// The arriving process joins the tail of the queue.
    open spec fn spec_on_arrive(v: RrV, p: Process, time: i32) -> (RrV, Process) {
        (RrV { queue: v.queue.push(p.name), ..v }, p)
    }

    /// When no process holds the CPU and this process is at the head of
    /// the queue, it is popped, dispatched, and granted a full quantum.
    open spec fn spec_pre_tick(v: RrV, p: Process, time: i32) -> (RrV, Process) {
        if v.selected is Some {
            (v, p)
        } else if v.queue.len() > 0 && v.queue[0]@ == p.name@ {
            (
                RrV {
                    quantum: v.quantum,
                    quantum_remaining: v.quantum,
                    queue: v.queue.remove(0),
                    selected: Some(v.queue[0]),
                },
                p.spec_select(time),
            )
        } else {
            (v, p)
        }
    }

    /// The CPU holder spends one quantum unit; on exhaustion it is set
    /// Ready, requeued at the tail, and the CPU is released.
    open spec fn spec_on_tick(v: RrV, p: Process, time: i32) -> (RrV, Process) {
        match v.selected {
            Some(s) => if s@ == p.name@ {
                let spent = (v.quantum_remaining - 1) as i32;
                if spent == 0 {
                    (
                        RrV {
                            quantum: v.quantum,
                            quantum_remaining: 0,
                            queue: v.queue.push(p.name),
                            selected: None,
                        },
                        p.spec_deselect(),
                    )
                } else {
                    (RrV { quantum_remaining: spent, ..v }, p)
                }
            } else {
                (v, p)
            },
            None => (v, p),
        }
    }

    /// The finished process releases the CPU; it is not in the queue.
    open spec fn spec_on_finish(v: RrV, p: Process, time: i32) -> RrV {
        RrV { selected: None, ..v }
    }

    fn on_arrive(&mut self, process: &mut Process, _time: i32) {
        self.process_queue.push(process.name.clone());
    }

    fn pre_tick(&mut self, process: &mut Process, time: i32) {
        if self.selected_process.is_some() {
            return ;
        }
        if self.process_queue.len() > 0 {
            if self.process_queue[0] == process.name {
                let front = self.process_queue.remove(0);
                self.selected_process = Some(front);
                process.select(time);
                self.quantum_remaining = self.quantum;
            }
        }
    }

    fn on_tick(&mut self, process: &mut Process, _time: i32) {
        let holds_cpu = match &self.selected_process {
            Some(selected_name) => *selected_name == process.name,
            None => false,
        };
        if holds_cpu {
            self.quantum_remaining = self.quantum_remaining - 1;
            if self.quantum_remaining == 0 {
                process.deselect();
                self.selected_process = None;
                self.process_queue.push(process.name.clone());
            }
        }
    }

    fn on_finish(&mut self, _process: &Process, _time: i32) {
        self.selected_process = None;
    }

    fn selected_process_name(&self) -> (r: Option<String>) {
        match &self.selected_process {
            Some(name) => Some(name.clone()),
            None => None,
        }
    }

    fn descriptive_name(&self) -> (r: String) {
        "Round-Robin".to_string()
    }
}

} // verus!
