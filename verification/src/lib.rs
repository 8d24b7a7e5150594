//! A user-space, multi-core task scheduler.
//!
//! Cooperative iterative tasks are submitted to a pool of executors, each
//! standing for one CPU-pinned worker. An executor drains an inbound mailbox
//! into a local work deque, drives each task forward in short ticks, and
//! either requeues, completes, or drops it according to the state the task
//! reports. Idle executors may rebalance work by stealing the oldest task
//! from the longest peer deque. A completed task delivers its result and
//! telemetry (tick count, CPU time, wall-clock time, steal count) exactly
//! once through a single-shot waiter.

use vstd::prelude::*;

pub mod channel;
pub mod clock;
pub mod cpupool;
pub mod dispatcher;
pub mod executor;
pub mod primes;
pub mod task;
pub mod waiter;

verus! {

/// The failures a producer can observe.
#[derive(Clone, Copy, PartialEq, Eq, Structural, Debug)]
pub enum SchedulerError {
    /// The pool was built with an empty fleet, so no executor can be chosen.
    Configuration,
    /// The submission was rejected: the pool can accept no more work. In an
    /// in-process pool this happens only when the submission counter is
    /// exhausted; a threaded deployment also reports a dead worker this way.
    Scheduling,
    /// A waiter was requested a second time for the same task.
    DoubleWaiter,
    /// The result channel closed before a value was sent: the task erred or
    /// its executor went away.
    AwaitClosed,
}

} // verus!
