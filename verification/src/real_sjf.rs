//! Non-preemptive Shortest-Job-First: the first arrival is dispatched
//! unconditionally and runs to completion; at each completion the live
//! job with the shortest initial burst is promoted and again runs to
//! completion.  Jobs are keyed by their initial burst length.

use vstd::prelude::*;

use crate::process::Process;
use crate::scheduler::Scheduler;

verus! {

/// One live job as this policy tracks it: the process name and its sort
/// key, the initial burst length.
pub struct RealSjfJob {
    pub name: String,
    pub burst_time: i32,
}

/// The non-preemptive SJF policy state: the live jobs, and the name of
/// the job currently holding the CPU.
pub struct RealSjf {
    pub job_list: Vec<RealSjfJob>,
    pub shortest_job: Option<String>,
}

/// Mathematical model of the non-preemptive SJF state.
pub ghost struct RealSjfV {
    pub jobs: Seq<RealSjfJob>,
    pub shortest_job: Option<String>,
}

impl View for RealSjf {
    type V = RealSjfV;

    open spec fn view(&self) -> RealSjfV {
        RealSjfV { jobs: self.job_list@, shortest_job: self.shortest_job }
    }
}

/// Index of the entry with the strictly shortest initial burst among the
/// first `n` jobs; on ties the earliest-inserted entry wins.
pub open spec fn rsjf_shortest_index(jobs: Seq<RealSjfJob>, n: int) -> Option<int>
    decreases n,
{
    if n <= 0 {
        None
    } else {
        match rsjf_shortest_index(jobs, n - 1) {
            None => Some(n - 1),
            Some(i) => if jobs[n - 1].burst_time < jobs[i].burst_time {
                Some(n - 1)
            } else {
                Some(i)
            },
        }
    }
}

/// The name of the live job with the shortest initial burst, if any.
pub open spec fn rsjf_find_shortest(jobs: Seq<RealSjfJob>) -> Option<String> {
    match rsjf_shortest_index(jobs, jobs.len() as int) {
        None => None,
        Some(i) => Some(jobs[i].name),
    }
}

/// Index of the first entry among the first `n` whose name reads `name`.
pub open spec fn rsjf_find_name(jobs: Seq<RealSjfJob>, name: Seq<char>, n: int) -> Option<int>
    decreases n,
{
    if n <= 0 {
        None
    } else {
        match rsjf_find_name(jobs, name, n - 1) {
            Some(i) => Some(i),
            None => if jobs[n - 1].name@ == name {
                Some(n - 1)
            } else {
                None
            },
        }
    }
}

/// What recording an arrived job does: an entry with the same name is
/// overwritten, otherwise the job is appended.
pub open spec fn rsjf_insert(jobs: Seq<RealSjfJob>, e: RealSjfJob) -> Seq<RealSjfJob> {
    match rsjf_find_name(jobs, e.name@, jobs.len() as int) {
        Some(i) => jobs.update(i, e),
        None => jobs.push(e),
    }
}

pub proof fn lemma_rsjf_shortest_index_bounds(jobs: Seq<RealSjfJob>, n: int)
    ensures
        n <= 0 ==> rsjf_shortest_index(jobs, n) is None,
        n > 0 ==> (match rsjf_shortest_index(jobs, n) {
            Some(i) => 0 <= i < n,
            None => false,
        }),
    decreases n,
{
    if n > 0 {
        lemma_rsjf_shortest_index_bounds(jobs, n - 1);
    }
}

pub proof fn lemma_rsjf_find_name_props(jobs: Seq<RealSjfJob>, name: Seq<char>, n: int)
    ensures
        match rsjf_find_name(jobs, name, n) {
            Some(i) => 0 <= i < n && jobs[i].name@ == name,
            None => forall|i: int| 0 <= i < n ==> jobs[i].name@ != name,
        },
    decreases n,
{
    if n > 0 {
        lemma_rsjf_find_name_props(jobs, name, n - 1);
    }
}

/// Scanning more entries keeps an already found match.
pub proof fn lemma_rsjf_find_name_mono(jobs: Seq<RealSjfJob>, name: Seq<char>, n: int, m: int)
    requires
        0 <= n <= m,
        rsjf_find_name(jobs, name, n) is Some,
    ensures
        rsjf_find_name(jobs, name, m) == rsjf_find_name(jobs, name, n),
    decreases m,
{
    if m > n {
        lemma_rsjf_find_name_mono(jobs, name, n, m - 1);
    }
}

/// A name that occurs at index `i` is found by a scan that reaches it.
pub proof fn lemma_rsjf_find_name_at(jobs: Seq<RealSjfJob>, i: int, n: int)
    requires
        0 <= i < n <= jobs.len(),
    ensures
        rsjf_find_name(jobs, jobs[i].name@, n) is Some,
    decreases n,
{
    if i < n - 1 {
        lemma_rsjf_find_name_at(jobs, i, n - 1);
    }
}

/// A scan is unchanged by rewriting one entry to an equally named one.
pub proof fn lemma_rsjf_find_name_update(
    jobs: Seq<RealSjfJob>,
    i: int,
    e: RealSjfJob,
    name: Seq<char>,
    n: int,
)
    requires
        0 <= i < jobs.len(),
        n <= jobs.len(),
        jobs[i].name@ == e.name@,
    ensures
        rsjf_find_name(jobs.update(i, e), name, n) == rsjf_find_name(jobs, name, n),
    decreases n,
{
    if n > 0 {
        lemma_rsjf_find_name_update(jobs, i, e, name, n - 1);
    }
}

/// Scans `jobs` for the first entry whose name reads `name`.
fn rsjf_find_entry(jobs: &Vec<RealSjfJob>, name: &String) -> (r: Option<usize>)
    ensures
        match r {
            Some(i) => i < jobs@.len() && rsjf_find_name(jobs@, name@, jobs@.len() as int)
                == Some(i as int),
            None => rsjf_find_name(jobs@, name@, jobs@.len() as int) is None,
        },
{
    let mut k: usize = 0;
    while k < jobs.len()
        invariant
            k <= jobs@.len(),
            rsjf_find_name(jobs@, name@, k as int) is None,
        decreases jobs@.len() - k,
    {
        if jobs[k].name == *name {
            proof {
                lemma_rsjf_find_name_mono(jobs@, name@, k as int + 1, jobs@.len() as int);
            }
            return Some(k);
        }
        k = k + 1;
    }
    None
}

impl RealSjf {
    /// Recomputes `shortest_job` as the live job with the shortest
    /// initial burst.
    fn find_shortest_job(&mut self)
        ensures
            final(self)@ == (RealSjfV {
                jobs: old(self)@.jobs,
                shortest_job: rsjf_find_shortest(old(self)@.jobs),
            }),
            RealSjf::wf(final(self)@),
    {
        let mut best: Option<usize> = None;
        let mut k: usize = 0;
        while k < self.job_list.len()
            invariant
                k <= self.job_list@.len(),
                self.job_list@ == old(self)@.jobs,
                self.shortest_job == old(self)@.shortest_job,
                match best {
                    Some(b) => b < k && rsjf_shortest_index(self.job_list@, k as int)
                        == Some(b as int),
                    None => rsjf_shortest_index(self.job_list@, k as int) is None,
                },
            decreases self.job_list@.len() - k,
        {
            match best {
                None => {
                    best = Some(k);
                },
                Some(b) => {
                    if self.job_list[k].burst_time < self.job_list[b].burst_time {
                        best = Some(k);
                    }
                },
            }
            k = k + 1;
        }
        self.shortest_job = match best {
            Some(b) => {
                proof {
                    lemma_rsjf_find_name_at(self.job_list@, b as int, self.job_list@.len() as int);
                }
                Some(self.job_list[b].name.clone())
            },
            None => None,
        };
    }
}

impl Scheduler for RealSjf {
    /// The deemed-shortest name, when set, names a live job.
    open spec fn wf(v: RealSjfV) -> bool {
        v.shortest_job is Some ==> rsjf_find_name(
            v.jobs,
            v.shortest_job.unwrap()@,
            v.jobs.len() as int,
        ) is Some
    }

    open spec fn spec_selected(v: RealSjfV) -> Option<String> {
        v.shortest_job
    }

    open spec fn spec_name(v: Self::V) -> Seq<char> {
        "real Shortest Job First (non-preemptive)"@
    }

    /// The arriving job is recorded; it is dispatched at once only when
    /// it is the sole live job.
    open spec fn spec_on_arrive(v: RealSjfV, p: Process, time: i32) -> (RealSjfV, Process) {
        let jobs2 = rsjf_insert(v.jobs, RealSjfJob { name: p.name, burst_time: p.burst_time });
        if jobs2.len() == 1 {
            (RealSjfV { jobs: jobs2, shortest_job: Some(p.name) }, p.spec_select(time))
        } else {
            (RealSjfV { jobs: jobs2, shortest_job: v.shortest_job }, p)
        }
    }

    /// The deemed-shortest job is kept Running; every other job is set
    /// Ready.
    open spec fn spec_pre_tick(v: RealSjfV, p: Process, time: i32) -> (RealSjfV, Process) {
        match v.shortest_job {
            Some(s) => if s@ == p.name@ {
                if p.spec_running() {
                    (v, p)
                } else {
                    (v, p.spec_select(time))
                }
            } else {
                (v, p.spec_deselect())
            },
            None => (v, p),
        }
    }

    /// This policy keeps no per-tick bookkeeping.
    open spec fn spec_on_tick(v: RealSjfV, p: Process, time: i32) -> (RealSjfV, Process) {
        (v, p)
    }

    /// The finished job is dropped and the shortest survivor promoted;
    /// an unknown name leaves the bookkeeping untouched.
    open spec fn spec_on_finish(v: RealSjfV, p: Process, time: i32) -> RealSjfV {
        match rsjf_find_name(v.jobs, p.name@, v.jobs.len() as int) {
            Some(i) => {
                let jobs2 = v.jobs.remove(i);
                RealSjfV { jobs: jobs2, shortest_job: rsjf_find_shortest(jobs2) }
            },
            None => v,
        }
    }

    fn on_arrive(&mut self, process: &mut Process, time: i32) {
        let entry = RealSjfJob { name: process.name.clone(), burst_time: process.burst_time };
        let idx = rsjf_find_entry(&self.job_list, &process.name);
        match idx {
            Some(i) => {
                proof {
                    lemma_rsjf_find_name_props(
                        self.job_list@,
                        process.name@,
                        self.job_list@.len() as int,
                    );
                    if old(self)@.shortest_job is Some {
                        lemma_rsjf_find_name_update(
                            self.job_list@,
                            i as int,
                            entry,
                            old(self)@.shortest_job.unwrap()@,
                            self.job_list@.len() as int,
                        );
                    }
                }
                self.job_list[i] = entry;
            },
            None => {
                proof {
                    if old(self)@.shortest_job is Some {
                        lemma_rsjf_find_name_push(
                            self.job_list@,
                            entry,
                            old(self)@.shortest_job.unwrap()@,
                            self.job_list@.len() as int,
                        );
                        lemma_rsjf_find_name_mono(
                            self.job_list@.push(entry),
                            old(self)@.shortest_job.unwrap()@,
                            self.job_list@.len() as int,
                            self.job_list@.len() as int + 1,
                        );
                    }
                }
                self.job_list.push(entry);
            },
        }
        if self.job_list.len() == 1 {
            self.shortest_job = Some(process.name.clone());
            process.select(time);
            proof {
                lemma_rsjf_find_name_at(self.job_list@, 0, 1);
                assert(self.job_list@[0].name@ == process.name@);
            }
        }
    }

    fn pre_tick(&mut self, process: &mut Process, time: i32) {
        match &self.shortest_job {
            Some(name) => {
                if *name == process.name {
                    if !process.is_running() {
                        process.select(time);
                    }
                } else {
                    process.deselect();
                }
            },
            None => {},
        }
    }

    fn on_tick(&mut self, _process: &mut Process, _time: i32) {
    }

    fn on_finish(&mut self, process: &Process, _time: i32) {
        let idx = rsjf_find_entry(&self.job_list, &process.name);
        if let Some(i) = idx {
            self.job_list.remove(i);
            self.find_shortest_job();
        }
    }

    fn selected_process_name(&self) -> (r: Option<String>) {
        match &self.shortest_job {
            Some(job_name) => Some(job_name.clone()),
            None => None,
        }
    }

    fn descriptive_name(&self) -> (r: String) {
        "real Shortest Job First (non-preemptive)".to_string()
    }
}

/// Appending an entry does not change what a scan of the old prefix finds.
pub proof fn lemma_rsjf_find_name_push(
    jobs: Seq<RealSjfJob>,
    e: RealSjfJob,
    name: Seq<char>,
    n: int,
)
    requires
        0 <= n <= jobs.len(),
    ensures
        rsjf_find_name(jobs.push(e), name, n) == rsjf_find_name(jobs, name, n),
    decreases n,
{
    if n > 0 {
        lemma_rsjf_find_name_push(jobs, e, name, n - 1);
        assert(jobs.push(e)[n - 1] == jobs[n - 1]);
    }
}

impl Default for RealSjf {
    /// A non-preemptive SJF scheduler with no live jobs.
    fn default() -> (r: RealSjf)
        ensures
            r@ == (RealSjfV { jobs: Seq::empty(), shortest_job: None }),
            RealSjf::wf(r@),
    {
        RealSjf { job_list: Vec::new(), shortest_job: None }
    }
}

} // verus!
