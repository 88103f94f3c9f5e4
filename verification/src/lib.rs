//! A single-CPU process-scheduling simulator.
//!
//! A workload (a list of processes with arrival times and burst lengths,
//! a run length, and a scheduling policy) is simulated tick by tick.  The
//! engine produces an ordered event log and per-process wait, turnaround
//! and response metrics, all pinned down by specification functions.

pub mod cpu;
pub mod fcfs;
pub mod laws;
pub mod process;
pub mod real_sjf;
pub mod rr;
pub mod schedule;
pub mod scheduler;
pub mod sjf;

pub use process::Process;
pub use process::ProcessState;
