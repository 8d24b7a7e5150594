//! The step-able unit of work. A task owns a user-supplied stepper, a
//! lifecycle state, an optional result, telemetry counters, and an optional
//! single-shot channel on which the completed result is delivered.

use vstd::prelude::*;

use crate::SchedulerError;
use crate::clock::Clock;
use crate::waiter::{WaitResult, Waiter};

verus! {

/// Lifecycle of a task. Unstarted moves through Incomplete ticks until
/// Complete or Error; the terminal states are absorbing.
#[derive(Clone, Copy, PartialEq, Eq, Structural, Debug)]
pub enum TaskState {
    Unstarted,
    Complete,
    Incomplete,
    Error,
}

/// One quantum of user work. Implementors report the new lifecycle state and
/// carry a result exactly when they report completion, and pin what one call
/// of theirs does through `step_post`.
pub trait Step<R>: Sized {
    /// What one call of the stepper does: relates the stepper before and
    /// after the call to the pair it returned.
    spec fn step_post(pre: Self, post: Self, r: (TaskState, Option<R>)) -> bool;

    fn step(&mut self) -> (r: (TaskState, Option<R>))
        ensures
            r.1 is Some <==> r.0 is Complete,
            Self::step_post(*old(self), *final(self), r),
    ;
}

/// The executor-facing surface of a task: what an executor needs in order to
/// drive any unit of work, whatever its stepper and result types.
pub trait Iterable: Sized {
    /// The task's internal invariant.
    spec fn inv(&self) -> bool;

    /// The task's current lifecycle state.
    spec fn state_of(&self) -> TaskState;

    /// How many times the task has moved from one executor to another.
    spec fn steals_of(&self) -> int;

    /// What one tick does to a task: each implementor pins here how the task
    /// after a tick relates to the task before it, down to the semantics of
    /// its own stepper.
    spec fn tick_rel(pre: Self, post: Self) -> bool;

    /// Advance the task by one quantum.
    fn tick(&mut self)
        requires
            old(self).inv(),
            old(self).state_of() is Unstarted || old(self).state_of() is Incomplete,
        ensures
            final(self).inv(),
            final(self).steals_of() == old(self).steals_of(),
            Self::tick_rel(*old(self), *final(self)),
    ;

    fn get_state(&self) -> (s: TaskState)
        ensures
            s == self.state_of(),
    ;

    /// Terminal hand-off: deliver the result and telemetry to the waiter, if
    /// one was taken, and consume the task.
    fn complete(self)
        requires
            self.inv(),
            self.state_of() is Complete,
    ;

    /// Record one move between executors; called by the thief right before
    /// the task joins its deque.
    fn mark_stolen(&mut self)
        requires
            old(self).inv(),
        ensures
            final(self).inv(),
            final(self).state_of() == old(self).state_of(),
            final(self).steals_of() == if old(self).steals_of() < usize::MAX as int {
                old(self).steals_of() + 1
            } else {
                old(self).steals_of()
            },
    ;
}

/// A task driving a stepper of type `S` toward a result of type `R`.
#[verifier::reject_recursive_types(R)]
pub struct Task<S, R> {
    pub stepper: S,
    pub state: TaskState,
    pub result: Option<R>,
    pub ticks: u32,
    pub n_steals: usize,
    pub cpu_time: u64,
    pub clock: Clock,
    pub send_result_channel: Option<std::sync::mpsc::Sender<WaitResult<R>>>,
}

impl<S, R> Task<S, R> {
    /// A result is present exactly in the Complete state; a task that left
    /// Unstarted has ticked at least once; and the accumulated CPU time never
    /// exceeds the latest stopwatch reading, hence never the total time.
    pub open spec fn wf(&self) -> bool {
        &&& (self.result is Some <==> self.state is Complete)
        &&& (!(self.state is Unstarted) ==> self.ticks >= 1)
        &&& self.cpu_time <= self.clock.last_of()
    }
}

impl<S: Step<R>, R> Task<S, R> {
    pub fn new(stepper: S) -> (t: Task<S, R>)
        ensures
            t.wf(),
            t.stepper == stepper,
            t.state is Unstarted,
            t.result is None,
            t.ticks == 0,
            t.n_steals == 0,
            t.cpu_time == 0,
            t.send_result_channel is None,
    {
        Task {
            stepper,
            state: TaskState::Unstarted,
            result: None,
            ticks: 0,
            n_steals: 0,
            cpu_time: 0,
            clock: Clock::new(),
            send_result_channel: None,
        }
    }

    /// Create the single-shot result channel and hand out its receiving end.
    /// Succeeds exactly once per task: a second call reports DoubleWaiter and
    /// leaves the task unchanged.
    pub fn waiter(&mut self) -> (r: Result<Waiter<WaitResult<R>>, SchedulerError>)
        ensures
            final(self).send_result_channel is Some,
            r is Ok <==> old(self).send_result_channel is None,
            r is Err ==> r == Err::<Waiter<WaitResult<R>>, SchedulerError>(
                SchedulerError::DoubleWaiter,
            ) && *final(self) == *old(self),
            final(self).stepper == old(self).stepper,
            final(self).state == old(self).state,
            final(self).result == old(self).result,
            final(self).ticks == old(self).ticks,
            final(self).n_steals == old(self).n_steals,
            final(self).cpu_time == old(self).cpu_time,
            final(self).clock == old(self).clock,
            final(self).wf() == old(self).wf(),
    {
        match &self.send_result_channel {
            Some(_) => Err(SchedulerError::DoubleWaiter),
            None => {
                let (sender, receiver) = crate::channel::new_channel();
                self.send_result_channel = Some(sender);
                Ok(Waiter::new(receiver))
            },
        }
    }

    /// The result as far as the task has produced one: present exactly in
    /// the Complete state.
    pub fn get_result(&self) -> (r: &Option<R>)
        ensures
            *r == self.result,
    {
        &self.result
    }

    /// Bundle the result and telemetry of a completed task. The delivered
    /// tick count is at least one and the CPU time never exceeds the total
    /// wall-clock time.
    pub fn into_wait_result(self) -> (w: WaitResult<R>)
        requires
            self.wf(),
            self.state is Complete,
        ensures
            w.result == self.result->0,
            w.ticks == self.ticks,
            w.ticks >= 1,
            w.n_steals == self.n_steals,
            w.cpu_time == self.cpu_time,
            w.cpu_time <= w.total_time,
    {
        let Task { result, ticks, n_steals, cpu_time, mut clock, .. } = self;
        let total_time = clock.read();
        WaitResult::new(result.unwrap(), cpu_time, total_time, ticks, n_steals)
    }
}

impl<S: Step<R>, R> Iterable for Task<S, R> {
    open spec fn inv(&self) -> bool {
        self.wf()
    }

    open spec fn state_of(&self) -> TaskState {
        self.state
    }

    open spec fn steals_of(&self) -> int {
        self.n_steals as int
    }

    /// A tick runs the stepper exactly once: the pair it returns becomes the
    /// task's state and result, the tick counter advances (saturating at the
    /// word), the stopwatch keeps its starting point, and the steal count and
    /// result channel are untouched.
    open spec fn tick_rel(pre: Self, post: Self) -> bool {
        &&& S::step_post(pre.stepper, post.stepper, (post.state, post.result))
        &&& post.ticks == if pre.ticks < u32::MAX {
            (pre.ticks + 1) as u32
        } else {
            pre.ticks
        }
        &&& post.n_steals == pre.n_steals
        &&& post.cpu_time >= pre.cpu_time
        &&& post.clock.base_of() == pre.clock.base_of()
        &&& post.send_result_channel == pre.send_result_channel
    }

    /// One quantum: count the tick, time the stepper, and record the state
    /// and result it reports.
    fn tick(&mut self) {
        if self.ticks < u32::MAX {
            self.ticks = self.ticks + 1;
        }
        let start = self.clock.read();
        let (state, result) = self.stepper.step();
        self.state = state;
        self.result = result;
        let end = self.clock.read();
        self.cpu_time = self.cpu_time + (end - start);
    }

    fn get_state(&self) -> (s: TaskState) {
        self.state
    }

    /// Send the wait result on the channel, if a waiter was ever taken;
    /// otherwise the result is dropped silently.
    fn complete(self) {
        let Task { stepper, state, result, ticks, n_steals, cpu_time, clock, send_result_channel }
            = self;
        match send_result_channel {
            Some(sender) => {
                let finished = Task {
                    stepper,
                    state,
                    result,
                    ticks,
                    n_steals,
                    cpu_time,
                    clock,
                    send_result_channel: None,
                };
                let w = finished.into_wait_result();
                let _ = crate::channel::send_value(&sender, w);
            },
            None => {},
        }
    }

    fn mark_stolen(&mut self)
        ensures
            final(self).state == old(self).state,
            final(self).result == old(self).result,
            final(self).ticks == old(self).ticks,
            final(self).cpu_time == old(self).cpu_time,
            final(self).clock == old(self).clock,
            final(self).stepper == old(self).stepper,
            final(self).send_result_channel == old(self).send_result_channel,
    {
        if self.n_steals < usize::MAX {
            self.n_steals = self.n_steals + 1;
        }
    }
}

} // verus!
