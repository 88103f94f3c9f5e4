//! First-Come First-Served: the process with the earliest arrival time
//! among the live (arrived, unfinished) jobs holds the CPU and runs to
//! completion; the next-earliest is promoted when it finishes.

use vstd::prelude::*;

use crate::process::Process;
use crate::scheduler::Scheduler;

verus! {

/// One live job as FCFS tracks it: the process name and its sort key,
/// the arrival time.
pub struct FcfsProcess {
    pub name: String,
    pub arrival_time: i32,
}

/// The FCFS policy state: the live jobs, and the name of the job with
/// the earliest arrival (the one deemed dispatched).
pub struct FCFS {
    pub job_list: Vec<FcfsProcess>,
    pub first_job: Option<String>,
}

/// Mathematical model of the FCFS state.
pub ghost struct FcfsV {
    pub jobs: Seq<FcfsProcess>,
    pub first_job: Option<String>,
}

impl View for FCFS {
    type V = FcfsV;

    open spec fn view(&self) -> FcfsV {
        FcfsV { jobs: self.job_list@, first_job: self.first_job }
    }
}

/// Index of the entry with the strictly earliest arrival time among the
/// first `n` jobs; on ties the earliest-inserted entry wins.
pub open spec fn fcfs_earliest_index(jobs: Seq<FcfsProcess>, n: int) -> Option<int>
    decreases n,
{
    if n <= 0 {
        None
    } else {
        match fcfs_earliest_index(jobs, n - 1) {
            None => Some(n - 1),
            Some(i) => if jobs[n - 1].arrival_time < jobs[i].arrival_time {
                Some(n - 1)
            } else {
                Some(i)
            },
        }
    }
}

/// The name of the job FCFS deems first, or `None` when no job is live.
pub open spec fn fcfs_find_first(jobs: Seq<FcfsProcess>) -> Option<String> {
    match fcfs_earliest_index(jobs, jobs.len() as int) {
        None => None,
        Some(i) => Some(jobs[i].name),
    }
}

/// Index of the first entry among the first `n` whose name reads `name`.
pub open spec fn fcfs_find_name(jobs: Seq<FcfsProcess>, name: Seq<char>, n: int) -> Option<int>
    decreases n,
{
    if n <= 0 {
        None
    } else {
        match fcfs_find_name(jobs, name, n - 1) {
            Some(i) => Some(i),
            None => if jobs[n - 1].name@ == name {
                Some(n - 1)
            } else {
                None
            },
        }
    }
}

pub proof fn lemma_fcfs_earliest_index_bounds(jobs: Seq<FcfsProcess>, n: int)
    ensures
        n <= 0 ==> fcfs_earliest_index(jobs, n) is None,
        n > 0 ==> (match fcfs_earliest_index(jobs, n) {
            Some(i) => 0 <= i < n,
            None => false,
        }),
    decreases n,
{
    if n > 0 {
        lemma_fcfs_earliest_index_bounds(jobs, n - 1);
    }
}

pub proof fn lemma_fcfs_find_name_props(jobs: Seq<FcfsProcess>, name: Seq<char>, n: int)
    ensures
        match fcfs_find_name(jobs, name, n) {
            Some(i) => 0 <= i < n && jobs[i].name@ == name,
            None => forall|i: int| 0 <= i < n ==> jobs[i].name@ != name,
        },
    decreases n,
{
    if n > 0 {
        lemma_fcfs_find_name_props(jobs, name, n - 1);
    }
}

/// Scanning more entries keeps an already found match.
pub proof fn lemma_fcfs_find_name_mono(jobs: Seq<FcfsProcess>, name: Seq<char>, n: int, m: int)
    requires
        0 <= n <= m,
        fcfs_find_name(jobs, name, n) is Some,
    ensures
        fcfs_find_name(jobs, name, m) == fcfs_find_name(jobs, name, n),
    decreases m,
{
    if m > n {
        lemma_fcfs_find_name_mono(jobs, name, n, m - 1);
    }
}

/// Appending an entry does not change what a scan of the old prefix finds.
pub proof fn lemma_fcfs_find_name_push(
    jobs: Seq<FcfsProcess>,
    e: FcfsProcess,
    name: Seq<char>,
    n: int,
)
    requires
        0 <= n <= jobs.len(),
    ensures
        fcfs_find_name(jobs.push(e), name, n) == fcfs_find_name(jobs, name, n),
    decreases n,
{
    if n > 0 {
        lemma_fcfs_find_name_push(jobs, e, name, n - 1);
        assert(jobs.push(e)[n - 1] == jobs[n - 1]);
    }
}

/// A name that occurs at index `i` is found by a scan that reaches it.
pub proof fn lemma_fcfs_find_name_at(jobs: Seq<FcfsProcess>, i: int, n: int)
    requires
        0 <= i < n <= jobs.len(),
    ensures
        fcfs_find_name(jobs, jobs[i].name@, n) is Some,
    decreases n,
{
    if i < n - 1 {
        lemma_fcfs_find_name_at(jobs, i, n - 1);
    }
}

/// Scans `jobs` for the first entry whose name reads `name`.
fn find_entry(jobs: &Vec<FcfsProcess>, name: &String) -> (r: Option<usize>)
    ensures
        match r {
            Some(i) => i < jobs@.len() && fcfs_find_name(jobs@, name@, jobs@.len() as int)
                == Some(i as int),
            None => fcfs_find_name(jobs@, name@, jobs@.len() as int) is None,
        },
{
    let mut k: usize = 0;
    while k < jobs.len()
        invariant
            k <= jobs@.len(),
            fcfs_find_name(jobs@, name@, k as int) is None,
        decreases jobs@.len() - k,
    {
        if jobs[k].name == *name {
            proof {
                lemma_fcfs_find_name_mono(jobs@, name@, k as int + 1, jobs@.len() as int);
            }
            return Some(k);
        }
        k = k + 1;
    }
    None
}

impl FCFS {
    /// Recomputes `first_job` as the live job with the earliest arrival.
    fn find_first_job(&mut self)
        ensures
            final(self)@ == (FcfsV {
                jobs: old(self)@.jobs,
                first_job: fcfs_find_first(old(self)@.jobs),
            }),
            FCFS::wf(final(self)@),
    {
        let mut best: Option<usize> = None;
        let mut k: usize = 0;
        while k < self.job_list.len()
            invariant
                k <= self.job_list@.len(),
                self.job_list@ == old(self)@.jobs,
                self.first_job == old(self)@.first_job,
                match best {
                    Some(b) => b < k && fcfs_earliest_index(self.job_list@, k as int)
                        == Some(b as int),
                    None => fcfs_earliest_index(self.job_list@, k as int) is None,
                },
            decreases self.job_list@.len() - k,
        {
            match best {
                None => {
                    best = Some(k);
                },
                Some(b) => {
                    if self.job_list[k].arrival_time < self.job_list[b].arrival_time {
                        best = Some(k);
                    }
                },
            }
            k = k + 1;
        }
        self.first_job = match best {
            Some(b) => {
                proof {
                    lemma_fcfs_find_name_at(self.job_list@, b as int, self.job_list@.len() as int);
                }
                Some(self.job_list[b].name.clone())
            },
            None => None,
        };
    }
}

impl Scheduler for FCFS {
    /// The deemed-first name, when set, names a live job.
    open spec fn wf(v: FcfsV) -> bool {
        v.first_job is Some ==> fcfs_find_name(
            v.jobs,
            v.first_job.unwrap()@,
            v.jobs.len() as int,
        ) is Some
    }

    open spec fn spec_selected(v: FcfsV) -> Option<String> {
        v.first_job
    }

    open spec fn spec_name(v: Self::V) -> Seq<char> {
        "First-Come First-Served"@
    }

    /// The arriving job is recorded; it is dispatched at once unless a
    /// live job with an arrival time at most its own already exists.
    open spec fn spec_on_arrive(v: FcfsV, p: Process, time: i32) -> (FcfsV, Process) {
        let jobs2 = v.jobs.push(FcfsProcess { name: p.name, arrival_time: p.arrival_time });
        let take_over = match v.first_job {
            Some(f) => match fcfs_find_name(jobs2, f@, jobs2.len() as int) {
                Some(i) => !(jobs2[i].arrival_time <= p.arrival_time),
                None => true,
            },
            None => true,
        };
        if take_over {
            (FcfsV { jobs: jobs2, first_job: Some(p.name) }, p.spec_select(time))
        } else {
            (FcfsV { jobs: jobs2, first_job: v.first_job }, p)
        }
    }

    /// The deemed-first job is kept Running; every other job is set Ready.
    open spec fn spec_pre_tick(v: FcfsV, p: Process, time: i32) -> (FcfsV, Process) {
        match v.first_job {
            Some(f) => if f@ == p.name@ {
                if p.spec_running() {
                    (v, p)
                } else {
                    (v, p.spec_select(time))
                }
            } else {
                (v, p.spec_deselect())
            },
            None => (v, p),
        }
    }

    /// FCFS keeps no per-tick bookkeeping.
    open spec fn spec_on_tick(v: FcfsV, p: Process, time: i32) -> (FcfsV, Process) {
        (v, p)
    }

    /// The finished job is dropped and the earliest survivor promoted.
    open spec fn spec_on_finish(v: FcfsV, p: Process, time: i32) -> FcfsV {
        let jobs2 = match fcfs_find_name(v.jobs, p.name@, v.jobs.len() as int) {
            Some(i) => v.jobs.remove(i),
            None => v.jobs,
        };
        FcfsV { jobs: jobs2, first_job: fcfs_find_first(jobs2) }
    }

    fn on_arrive(&mut self, process: &mut Process, time: i32) {
        let entry = FcfsProcess { name: process.name.clone(), arrival_time: process.arrival_time };
        proof {
            if old(self)@.first_job is Some {
                lemma_fcfs_find_name_push(
                    old(self)@.jobs,
                    entry,
                    old(self)@.first_job.unwrap()@,
                    old(self)@.jobs.len() as int,
                );
                lemma_fcfs_find_name_mono(
                    old(self)@.jobs.push(entry),
                    old(self)@.first_job.unwrap()@,
                    old(self)@.jobs.len() as int,
                    old(self)@.jobs.len() as int + 1,
                );
            }
        }
        self.job_list.push(entry);
        match &self.first_job {
            Some(f) => {
                let idx = find_entry(&self.job_list, f);
                match idx {
                    Some(i) => {
                        if self.job_list[i].arrival_time <= process.arrival_time {
                            return ;
                        }
                    },
                    None => {
                        proof {
                            assert(false);
                        }
                    },
                }
            },
            None => {},
        }
        self.first_job = Some(process.name.clone());
        process.select(time);
        proof {
            let jobs2 = self.job_list@;
            assert(jobs2[jobs2.len() - 1].name@ == process.name@);
            lemma_fcfs_find_name_at(jobs2, jobs2.len() - 1, jobs2.len() as int);
        }
    }

    fn pre_tick(&mut self, process: &mut Process, time: i32) {
        match &self.first_job {
            Some(name) => {
                if *name == process.name {
                    if !process.is_running() {
                        process.select(time);
                    }
                } else {
                    process.deselect();
                }
            },
            None => {},
        }
    }

    fn on_tick(&mut self, _process: &mut Process, _time: i32) {
    }

    fn on_finish(&mut self, process: &Process, _time: i32) {
        let idx = find_entry(&self.job_list, &process.name);
        if let Some(i) = idx {
            self.job_list.remove(i);
        }
        self.find_first_job();
    }

    fn selected_process_name(&self) -> (r: Option<String>) {
        match &self.first_job {
            Some(job_name) => Some(job_name.clone()),
            None => None,
        }
    }

    fn descriptive_name(&self) -> (r: String) {
        "First-Come First-Served".to_string()
    }
}

impl Default for FCFS {
    /// An FCFS scheduler with no live jobs.
    fn default() -> (r: FCFS)
        ensures
            r@ == (FcfsV { jobs: Seq::empty(), first_job: None }),
            FCFS::wf(r@),
    {
        FCFS { job_list: Vec::new(), first_job: None }
    }
}

} // verus!
