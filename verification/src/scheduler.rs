//! The event-handling contract every scheduling policy implements.
//!
//! Each policy is a small state machine over its own bookkeeping.  The
//! view type `Self::V` is the mathematical model of that bookkeeping, and
//! each callback is pinned down exactly by a specification function on
//! views: the engine and its callers reason about the policies purely
//! through these functions.

use vstd::prelude::*;

use crate::process::Process;

verus! {

pub trait Scheduler: View + Sized {
    /// Well-formedness of the policy's bookkeeping; established by the
    /// constructors and preserved by every callback.
    spec fn wf(v: Self::V) -> bool;

    /// The name of the process the policy currently deems dispatched,
    /// or `None` when the CPU is idle.
    spec fn spec_selected(v: Self::V) -> Option<String>;

    /// The policy's fixed human-readable label.
    spec fn spec_name(v: Self::V) -> Seq<char>;

    /// What `on_arrive` does to the bookkeeping and the arriving process.
    spec fn spec_on_arrive(v: Self::V, p: Process, time: i32) -> (Self::V, Process);

    /// What `pre_tick` does to the bookkeeping and the given process.
    spec fn spec_pre_tick(v: Self::V, p: Process, time: i32) -> (Self::V, Process);

    /// What `on_tick` does to the bookkeeping and the given process.
    spec fn spec_on_tick(v: Self::V, p: Process, time: i32) -> (Self::V, Process);

    /// What `on_finish` does to the bookkeeping.
    spec fn spec_on_finish(v: Self::V, p: Process, time: i32) -> Self::V;

    /// Called exactly once per process, at the tick equal to its arrival
    /// time, after the engine has set the process Ready.  May dispatch
    /// the process at once if the policy's criteria make it eligible.
    fn on_arrive(&mut self, process: &mut Process, time: i32)
        requires
            Self::wf(old(self)@),
            old(process).valid(),
            !old(process).spec_finished(),
        ensures
            (final(self)@, *final(process)) == Self::spec_on_arrive(
                old(self)@,
                *old(process),
                time,
            ),
            Self::wf(final(self)@),
            final(process).valid(),
    ;

    /// Called for every arrived, unfinished process before the engine
    /// advances to `time`; here the policy makes the dispatch or
    /// preemption decision governing the coming unit of time.
    fn pre_tick(&mut self, process: &mut Process, time: i32)
        requires
            Self::wf(old(self)@),
            old(process).valid(),
            !old(process).spec_finished(),
        ensures
            (final(self)@, *final(process)) == Self::spec_pre_tick(
                old(self)@,
                *old(process),
                time,
            ),
            Self::wf(final(self)@),
            final(process).valid(),
    ;

    /// Called for every arrived, unfinished process just after the engine
    /// has applied the unit ending at `time`; used to refresh bookkeeping
    /// and, for Round-Robin, to spend the quantum.
    fn on_tick(&mut self, process: &mut Process, time: i32)
        requires
            Self::wf(old(self)@),
            old(process).valid(),
            !old(process).spec_finished(),
        ensures
            (final(self)@, *final(process)) == Self::spec_on_tick(
                old(self)@,
                *old(process),
                time,
            ),
            Self::wf(final(self)@),
            final(process).valid(),
    ;

    /// Called once, at the tick when a process's remaining burst reaches
    /// zero, to drop it from the live bookkeeping.
    fn on_finish(&mut self, process: &Process, time: i32)
        requires
            Self::wf(old(self)@),
        ensures
            final(self)@ == Self::spec_on_finish(old(self)@, *process, time),
            Self::wf(final(self)@),
    ;

    /// The name of the currently dispatched process, or `None` when the
    /// CPU is idle.
    fn selected_process_name(&self) -> (r: Option<String>)
        ensures
            r == Self::spec_selected(self@),
    ;

    /// The policy's label for the report header.
    fn descriptive_name(&self) -> (r: String)
        ensures
            r@ == Self::spec_name(self@),
    ;
}

} // verus!
