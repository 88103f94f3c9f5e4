//! Preemptive Shortest-Job-First: at every tick the live job with the
//! least remaining burst (ties broken by earliest arrival) holds the
//! CPU; a newly arriving job with a strictly shorter remaining burst
//! preempts the current one at once.

use vstd::prelude::*;

use crate::process::Process;
use crate::scheduler::Scheduler;

verus! {

/// One live job as preemptive SJF tracks it: the process name and its
/// sort key, the remaining burst with the arrival time as tie-break.
pub struct SjfJob {
    pub name: String,
    pub time_remaining: i32,
    pub arrival_time: i32,
}

/// The preemptive SJF policy state: the live jobs with their remaining
/// bursts, and the name of the job deemed shortest.
pub struct SJF {
    pub job_list: Vec<SjfJob>,
    pub shortest_job: Option<String>,
}

/// Mathematical model of the preemptive SJF state.
pub ghost struct SjfV {
    pub jobs: Seq<SjfJob>,
    pub shortest_job: Option<String>,
}

impl View for SJF {
    type V = SjfV;

    open spec fn view(&self) -> SjfV {
        SjfV { jobs: self.job_list@, shortest_job: self.shortest_job }
    }
}

/// Whether the key of `a` is strictly smaller than the key of `b`:
/// less remaining burst, or the same with an earlier arrival.
pub open spec fn sjf_key_lt(a: SjfJob, b: SjfJob) -> bool {
    a.time_remaining < b.time_remaining || (a.time_remaining == b.time_remaining
        && a.arrival_time < b.arrival_time)
}

/// Index of the entry with the strictly least key among the first `n`
/// jobs; on ties the earliest-inserted entry wins.
pub open spec fn sjf_shortest_index(jobs: Seq<SjfJob>, n: int) -> Option<int>
    decreases n,
{
    if n <= 0 {
        None
    } else {
        match sjf_shortest_index(jobs, n - 1) {
            None => Some(n - 1),
            Some(i) => if sjf_key_lt(jobs[n - 1], jobs[i]) {
                Some(n - 1)
            } else {
                Some(i)
            },
        }
    }
}

/// The name of the live job with the least key, if any.
pub open spec fn sjf_find_shortest(jobs: Seq<SjfJob>) -> Option<String> {
    match sjf_shortest_index(jobs, jobs.len() as int) {
        None => None,
        Some(i) => Some(jobs[i].name),
    }
}

/// Index of the first entry among the first `n` whose name reads `name`.
pub open spec fn sjf_find_name(jobs: Seq<SjfJob>, name: Seq<char>, n: int) -> Option<int>
    decreases n,
{
    if n <= 0 {
        None
    } else {
        match sjf_find_name(jobs, name, n - 1) {
            Some(i) => Some(i),
            None => if jobs[n - 1].name@ == name {
                Some(n - 1)
            } else {
                None
            },
        }
    }
}

/// What recording a job does: an entry with the same name is
/// overwritten, otherwise the job is appended.
pub open spec fn sjf_insert(jobs: Seq<SjfJob>, e: SjfJob) -> Seq<SjfJob> {
    match sjf_find_name(jobs, e.name@, jobs.len() as int) {
        Some(i) => jobs.update(i, e),
        None => jobs.push(e),
    }
}


/// The scan for the shortest job returns the entry with the least
/// (remaining burst, arrival time) key: no scanned entry beats it.
pub proof fn lemma_sjf_shortest_index_is_min(jobs: Seq<SjfJob>, n: int)
    ensures
        match sjf_shortest_index(jobs, n) {
            Some(i) => 0 <= i < n && forall|k: int|
                0 <= k < n ==> !sjf_key_lt(#[trigger] jobs[k], jobs[i]),
            None => n <= 0,
        },
    decreases n,
{
    if n > 0 {
        lemma_sjf_shortest_index_is_min(jobs, n - 1);
    }
}

pub proof fn lemma_sjf_find_name_props(jobs: Seq<SjfJob>, name: Seq<char>, n: int)
    ensures
        match sjf_find_name(jobs, name, n) {
            Some(i) => 0 <= i < n && jobs[i].name@ == name,
            None => forall|i: int| 0 <= i < n ==> jobs[i].name@ != name,
        },
    decreases n,
{
    if n > 0 {
        lemma_sjf_find_name_props(jobs, name, n - 1);
    }
}

/// Scanning more entries keeps an already found match.
pub proof fn lemma_sjf_find_name_mono(jobs: Seq<SjfJob>, name: Seq<char>, n: int, m: int)
    requires
        0 <= n <= m,
        sjf_find_name(jobs, name, n) is Some,
    ensures
        sjf_find_name(jobs, name, m) == sjf_find_name(jobs, name, n),
    decreases m,
{
    if m > n {
        lemma_sjf_find_name_mono(jobs, name, n, m - 1);
    }
}

/// Appending an entry does not change what a scan of the old prefix finds.
pub proof fn lemma_sjf_find_name_push(jobs: Seq<SjfJob>, e: SjfJob, name: Seq<char>, n: int)
    requires
        0 <= n <= jobs.len(),
    ensures
        sjf_find_name(jobs.push(e), name, n) == sjf_find_name(jobs, name, n),
    decreases n,
{
    if n > 0 {
        lemma_sjf_find_name_push(jobs, e, name, n - 1);
        assert(jobs.push(e)[n - 1] == jobs[n - 1]);
    }
}

/// A name that occurs at index `i` is found by a scan that reaches it.
pub proof fn lemma_sjf_find_name_at(jobs: Seq<SjfJob>, i: int, n: int)
    requires
        0 <= i < n <= jobs.len(),
    ensures
        sjf_find_name(jobs, jobs[i].name@, n) is Some,
    decreases n,
{
    if i < n - 1 {
        lemma_sjf_find_name_at(jobs, i, n - 1);
    }
}


/// Removing one entry neither hides any other name nor changes its
/// values: with unique names, every other entry is still found, and a
/// removed name is no longer found.
pub proof fn lemma_sjf_find_name_remove(jobs: Seq<SjfJob>, rm: int, name: Seq<char>)
    requires
        0 <= rm < jobs.len(),
        forall|j: int, k: int|
            0 <= j < jobs.len() && 0 <= k < jobs.len() && j != k ==> jobs[j].name@
                != jobs[k].name@,
    ensures
        ({
            let jobs2 = jobs.remove(rm);
            &&& (jobs[rm].name@ == name ==> sjf_find_name(jobs2, name, jobs2.len() as int)
                is None)
            &&& (jobs[rm].name@ != name ==> (match sjf_find_name(jobs, name, jobs.len() as int) {
                Some(j) => {
                    let f2 = sjf_find_name(jobs2, name, jobs2.len() as int);
                    f2 is Some && jobs2[f2.unwrap()] == jobs[j]
                },
                None => sjf_find_name(jobs2, name, jobs2.len() as int) is None,
            }))
        }),
{
    let jobs2 = jobs.remove(rm);
    lemma_sjf_find_name_props(jobs, name, jobs.len() as int);
    lemma_sjf_find_name_props(jobs2, name, jobs2.len() as int);
    assert forall|k: int| 0 <= k < jobs2.len() implies #[trigger] jobs2[k] == (if k < rm {
        jobs[k]
    } else {
        jobs[k + 1]
    }) by {}
    if jobs[rm].name@ != name {
        match sjf_find_name(jobs, name, jobs.len() as int) {
            Some(j) => {
                let idx = if j < rm {
                    j
                } else {
                    j - 1
                };
                assert(jobs2[idx] == jobs[j]);
                lemma_sjf_find_name_at(jobs2, idx, jobs2.len() as int);
            },
            None => {},
        }
    }
}

/// A scan is unchanged by rewriting one entry to an equally named one.
pub proof fn lemma_sjf_find_name_update(
    jobs: Seq<SjfJob>,
    i: int,
    e: SjfJob,
    name: Seq<char>,
    n: int,
)
    requires
        0 <= i < jobs.len(),
        n <= jobs.len(),
        jobs[i].name@ == e.name@,
    ensures
        sjf_find_name(jobs.update(i, e), name, n) == sjf_find_name(jobs, name, n),
    decreases n,
{
    if n > 0 {
        lemma_sjf_find_name_update(jobs, i, e, name, n - 1);
    }
}

/// Scans `jobs` for the first entry whose name reads `name`.
fn sjf_find_entry(jobs: &Vec<SjfJob>, name: &String) -> (r: Option<usize>)
    ensures
        match r {
            Some(i) => i < jobs@.len() && sjf_find_name(jobs@, name@, jobs@.len() as int)
                == Some(i as int),
            None => sjf_find_name(jobs@, name@, jobs@.len() as int) is None,
        },
{
    let mut k: usize = 0;
    while k < jobs.len()
        invariant
            k <= jobs@.len(),
            sjf_find_name(jobs@, name@, k as int) is None,
        decreases jobs@.len() - k,
    {
        if jobs[k].name == *name {
            proof {
                lemma_sjf_find_name_mono(jobs@, name@, k as int + 1, jobs@.len() as int);
            }
            return Some(k);
        }
        k = k + 1;
    }
    None
}

impl SJF {
    /// Records the given job, overwriting an entry of the same name.
    fn insert_job(&mut self, process: &Process)
        ensures
            final(self)@ == (SjfV {
                jobs: sjf_insert(
                    old(self)@.jobs,
                    SjfJob {
                        name: process.name,
                        time_remaining: process.time_remaining,
                        arrival_time: process.arrival_time,
                    },
                ),
                shortest_job: old(self)@.shortest_job,
            }),
            SJF::wf(old(self)@) ==> SJF::wf(final(self)@),
    {
        let entry = SjfJob {
            name: process.name.clone(),
            time_remaining: process.time_remaining,
            arrival_time: process.arrival_time,
        };
        let idx = sjf_find_entry(&self.job_list, &process.name);
        match idx {
            Some(i) => {
                proof {
                    lemma_sjf_find_name_props(
                        self.job_list@,
                        process.name@,
                        self.job_list@.len() as int,
                    );
                    if SJF::wf(old(self)@) && old(self)@.shortest_job is Some {
                        lemma_sjf_find_name_update(
                            self.job_list@,
                            i as int,
                            entry,
                            old(self)@.shortest_job.unwrap()@,
                            self.job_list@.len() as int,
                        );
                    }
                }
                self.job_list[i] = entry;
            },
            None => {
                proof {
                    if SJF::wf(old(self)@) && old(self)@.shortest_job is Some {
                        lemma_sjf_find_name_push(
                            self.job_list@,
                            entry,
                            old(self)@.shortest_job.unwrap()@,
                            self.job_list@.len() as int,
                        );
                        lemma_sjf_find_name_mono(
                            self.job_list@.push(entry),
                            old(self)@.shortest_job.unwrap()@,
                            self.job_list@.len() as int,
                            self.job_list@.len() as int + 1,
                        );
                    }
                }
                self.job_list.push(entry);
            },
        }
    }

    /// Recomputes `shortest_job` as the live job with the least
    /// (remaining burst, arrival time) key.
    fn find_shortest_job(&mut self)
        ensures
            final(self)@ == (SjfV {
                jobs: old(self)@.jobs,
                shortest_job: sjf_find_shortest(old(self)@.jobs),
            }),
            SJF::wf(final(self)@),
    {
        let mut best: Option<usize> = None;
        let mut k: usize = 0;
        while k < self.job_list.len()
            invariant
                k <= self.job_list@.len(),
                self.job_list@ == old(self)@.jobs,
                self.shortest_job == old(self)@.shortest_job,
                match best {
                    Some(b) => b < k && sjf_shortest_index(self.job_list@, k as int)
                        == Some(b as int),
                    None => sjf_shortest_index(self.job_list@, k as int) is None,
                },
            decreases self.job_list@.len() - k,
        {
            match best {
                None => {
                    best = Some(k);
                },
                Some(b) => {
                    let cand_remaining = self.job_list[k].time_remaining;
                    let cand_arrival = self.job_list[k].arrival_time;
                    let best_remaining = self.job_list[b].time_remaining;
                    let best_arrival = self.job_list[b].arrival_time;
                    if cand_remaining < best_remaining || (cand_remaining == best_remaining
                        && cand_arrival < best_arrival) {
                        best = Some(k);
                    }
                },
            }
            k = k + 1;
        }
        self.shortest_job = match best {
            Some(b) => {
                proof {
                    lemma_sjf_find_name_at(self.job_list@, b as int, self.job_list@.len() as int);
                }
                Some(self.job_list[b].name.clone())
            },
            None => None,
        };
    }
}

impl Scheduler for SJF {
    /// The deemed-shortest name, when set, names a live job.
    open spec fn wf(v: SjfV) -> bool {
        v.shortest_job is Some ==> sjf_find_name(
            v.jobs,
            v.shortest_job.unwrap()@,
            v.jobs.len() as int,
        ) is Some
    }

    open spec fn spec_selected(v: SjfV) -> Option<String> {
        v.shortest_job
    }

    open spec fn spec_name(v: Self::V) -> Seq<char> {
        "preemptive Shortest Job First"@
    }

    /// The arriving job is recorded with its remaining burst; it
    /// preempts at once when its remaining burst is strictly shorter
    /// than that of the job currently deemed shortest.
    open spec fn spec_on_arrive(v: SjfV, p: Process, time: i32) -> (SjfV, Process) {
        let jobs2 = sjf_insert(
            v.jobs,
            SjfJob {
                name: p.name,
                time_remaining: p.time_remaining,
                arrival_time: p.arrival_time,
            },
        );
        let take_over = match v.shortest_job {
            Some(s) => match sjf_find_name(jobs2, s@, jobs2.len() as int) {
                Some(i) => !(jobs2[i].time_remaining <= p.time_remaining),
                None => true,
            },
            None => true,
        };
        if take_over {
            (SjfV { jobs: jobs2, shortest_job: Some(p.name) }, p.spec_select(time))
        } else {
            (SjfV { jobs: jobs2, shortest_job: v.shortest_job }, p)
        }
    }

    /// The deemed-shortest job is kept Running; every other job is set
    /// Ready.
    open spec fn spec_pre_tick(v: SjfV, p: Process, time: i32) -> (SjfV, Process) {
        match v.shortest_job {
            Some(s) => if s@ == p.name@ {
                if p.spec_running() {
                    (v, p)
                } else {
                    (v, p.spec_select(time))
                }
            } else {
                (v, p.spec_deselect())
            },
            None => (v, p),
        }
    }

    /// The job's entry is refreshed with its current remaining burst.
    open spec fn spec_on_tick(v: SjfV, p: Process, time: i32) -> (SjfV, Process) {
        let jobs2 = sjf_insert(
            v.jobs,
            SjfJob {
                name: p.name,
                time_remaining: p.time_remaining,
                arrival_time: p.arrival_time,
            },
        );
        (SjfV { jobs: jobs2, shortest_job: v.shortest_job }, p)
    }

    /// The finished job is dropped and the least-key survivor promoted.
    open spec fn spec_on_finish(v: SjfV, p: Process, time: i32) -> SjfV {
        let jobs2 = match sjf_find_name(v.jobs, p.name@, v.jobs.len() as int) {
            Some(i) => v.jobs.remove(i),
            None => v.jobs,
        };
        SjfV { jobs: jobs2, shortest_job: sjf_find_shortest(jobs2) }
    }

    fn on_arrive(&mut self, process: &mut Process, time: i32) {
        self.insert_job(process);
        match &self.shortest_job {
            Some(s) => {
                let idx = sjf_find_entry(&self.job_list, s);
                match idx {
                    Some(i) => {
                        if self.job_list[i].time_remaining <= process.time_remaining {
                            return ;
                        }
                    },
                    None => {
                        proof {
                            assert(false);
                        }
                    },
                }
            },
            None => {},
        }
        self.shortest_job = Some(process.name.clone());
        process.select(time);
        proof {
            lemma_sjf_find_name_props(self.job_list@, process.name@, self.job_list@.len() as int);
            let jobs0 = old(self)@.jobs;
            let e = SjfJob {
                name: process.name,
                time_remaining: process.time_remaining,
                arrival_time: process.arrival_time,
            };
            match sjf_find_name(jobs0, process.name@, jobs0.len() as int) {
                Some(i) => {
                    lemma_sjf_find_name_props(jobs0, process.name@, jobs0.len() as int);
                    lemma_sjf_find_name_update(
                        jobs0,
                        i,
                        e,
                        process.name@,
                        jobs0.len() as int,
                    );
                },
                None => {
                    lemma_sjf_find_name_at(
                        self.job_list@,
                        self.job_list@.len() - 1,
                        self.job_list@.len() as int,
                    );
                },
            }
        }
    }

    fn pre_tick(&mut self, process: &mut Process, time: i32) {
        match &self.shortest_job {
            Some(name) => {
                if *name == process.name {
                    if !process.is_running() {
                        process.select(time);
                    }
                } else {
                    process.deselect();
                }
            },
            None => {},
        }
    }

    fn on_tick(&mut self, process: &mut Process, _time: i32) {
        self.insert_job(process);
    }

    fn on_finish(&mut self, process: &Process, _time: i32) {
        let idx = sjf_find_entry(&self.job_list, &process.name);
        if let Some(i) = idx {
            self.job_list.remove(i);
        }
        self.find_shortest_job();
    }

    fn selected_process_name(&self) -> (r: Option<String>) {
        match &self.shortest_job {
            Some(job_name) => Some(job_name.clone()),
            None => None,
        }
    }

    fn descriptive_name(&self) -> (r: String) {
        "preemptive Shortest Job First".to_string()
    }
}

impl Default for SJF {
    /// A preemptive SJF scheduler with no live jobs.
    fn default() -> (r: SJF)
        ensures
            r@ == (SjfV { jobs: Seq::empty(), shortest_job: None }),
            SJF::wf(r@),
    {
        SJF { job_list: Vec::new(), shortest_job: None }
    }
}

} // verus!
