//! The consumer's side of a task: a waiter blocks until the result arrives,
//! and a wait result bundles the result with the task's telemetry.

use vstd::prelude::*;

use crate::SchedulerError;

verus! {

/// Single-consumer handle on the receiving end of a task's result channel.
#[verifier::reject_recursive_types(T)]
pub struct Waiter<T> {
    pub receive_result_channel: std::sync::mpsc::Receiver<T>,
}

impl<T> Waiter<T> {
    pub fn new(channel: std::sync::mpsc::Receiver<T>) -> (w: Waiter<T>)
        ensures
            w.receive_result_channel == channel,
    {
        Waiter { receive_result_channel: channel }
    }

    /// Blocks until the result arrives; if the channel closes first (the task
    /// erred, was dropped, or its executor went away), reports that instead.
    pub fn wait(&self) -> (r: Result<T, SchedulerError>)
        ensures
            r matches Err(e) ==> e == SchedulerError::AwaitClosed,
    {
        match crate::channel::recv_value(&self.receive_result_channel) {
            Ok(value) => Ok(value),
            Err(()) => Err(SchedulerError::AwaitClosed),
        }
    }
}

/// A completed task's result together with its telemetry.
pub struct WaitResult<T> {
    pub result: T,
    pub cpu_time: u64,
    pub total_time: u64,
    pub ticks: u32,
    pub n_steals: usize,
}

impl<T> WaitResult<T> {
    pub fn new(result: T, cpu_time: u64, total_time: u64, ticks: u32, n_steals: usize) -> (w:
        WaitResult<T>)
        ensures
            w.result == result,
            w.cpu_time == cpu_time,
            w.total_time == total_time,
            w.ticks == ticks,
            w.n_steals == n_steals,
    {
        WaitResult { result, cpu_time, total_time, ticks, n_steals }
    }

    pub fn get_cpu_time(&self) -> (t: u64)
        ensures
            t == self.cpu_time,
    {
        self.cpu_time
    }

    pub fn get_total_time(&self) -> (t: u64)
        ensures
            t == self.total_time,
    {
        self.total_time
    }

    pub fn get_ticks(&self) -> (t: u32)
        ensures
            t == self.ticks,
    {
        self.ticks
    }

    pub fn get_n_steals(&self) -> (n: usize)
        ensures
            n == self.n_steals,
    {
        self.n_steals
    }

    pub fn get_result(&self) -> (r: &T)
        ensures
            *r == self.result,
    {
        &self.result
    }
}

} // verus!
