//! One executor: one logical slice of the pool's compute. It owns an inbound
//! mailbox, a local double-ended work queue, the acknowledgement bookkeeping
//! behind the producer-visible load estimate, and the indices of the peers it
//! may steal from. The worker's loop — drain the mailbox, run the oldest
//! queued task for one tick, route it by the state it reports — lives here as
//! verified steps; a driver (the pool, a test, or a pinned OS thread) decides
//! when each step runs.

use vstd::prelude::*;

use crate::task::{Iterable, TaskState};

verus! {

/// A task may sit in a mailbox or deque only while it still has work to do;
/// terminal tasks leave the executor at once.
pub open spec fn queued<T: Iterable>(t: T) -> bool {
    &&& t.inv()
    &&& (t.state_of() is Unstarted || t.state_of() is Incomplete)
}

/// The value `count_tasks` reports: the executor's load, saturated at the
/// machine word.
pub open spec fn count_of<T: Iterable>(e: Executor<T>) -> int {
    vstd::math::min(e.load(), usize::MAX as int)
}

/// What one call to `do_work` did.
#[derive(Clone, Copy, PartialEq, Eq, Structural, Debug)]
pub enum WorkOutcome {
    /// The deque was empty; nothing ran.
    Idle,
    /// The task ticked, reported Incomplete, and went back on the deque.
    Requeued,
    /// The task ticked and reported Complete; its result went to its waiter.
    Completed,
    /// The task ticked and reported Error; it was dropped, and its waiter
    /// observes the channel closing.
    Errored,
    /// The task still reported Unstarted after a tick, which a stepper must
    /// never do; it was dropped.
    DroppedUnstarted,
}

pub struct Executor<T> {
    pub cpu: usize,
    pub mailbox: Vec<T>,
    pub deque: Vec<T>,
    pub not_acked_tasks: usize,
    pub acks_pending: usize,
    pub busy: bool,
    pub peers: Vec<usize>,
}

impl<T: Iterable> Executor<T> {
    /// The unacknowledged count is exactly the mailbox backlog plus the
    /// acknowledgements the producer side has not drained yet, and every
    /// queued task is sound and still runnable.
    pub open spec fn wf(&self) -> bool {
        &&& self.not_acked_tasks == self.mailbox@.len() + self.acks_pending
        &&& forall|i: int| 0 <= i < self.mailbox@.len() ==> queued(#[trigger] self.mailbox@[i])
        &&& forall|i: int| 0 <= i < self.deque@.len() ==> queued(#[trigger] self.deque@[i])
    }

    /// The load this executor reports: tasks not yet seen moving to the
    /// deque, plus what peers can see of the deque, plus one while a tick is
    /// running.
    pub open spec fn load(&self) -> int {
        self.mailbox@.len() + self.deque@.len() + if self.busy {
            1int
        } else {
            0int
        }
    }

    pub fn new(cpu: usize, peers: Vec<usize>) -> (e: Executor<T>)
        ensures
            e.wf(),
            e.cpu == cpu,
            e.peers == peers,
            e.mailbox@.len() == 0,
            e.deque@.len() == 0,
            e.not_acked_tasks == 0,
            e.acks_pending == 0,
            !e.busy,
    {
        Executor {
            cpu,
            mailbox: Vec::new(),
            deque: Vec::new(),
            not_acked_tasks: 0,
            acks_pending: 0,
            busy: false,
            peers,
        }
    }

    pub fn get_cpu(&self) -> (c: usize)
        ensures
            c == self.cpu,
    {
        self.cpu
    }

    /// Hand a task to the mailbox and count it as not yet acknowledged. Never
    /// blocks. Fails only when the unacknowledged counter is exhausted, in
    /// which case the task comes back to the caller.
    pub fn schedule(&mut self, task: T) -> (r: Result<(), T>)
        requires
            old(self).wf(),
            queued(task),
        ensures
            final(self).wf(),
            r is Ok <==> old(self).not_acked_tasks < usize::MAX,
            r is Ok ==> final(self).mailbox@ == old(self).mailbox@.push(task)
                && final(self).not_acked_tasks == old(self).not_acked_tasks + 1,
            r is Err ==> *final(self) == *old(self) && r == Err::<(), T>(task),
            final(self).deque == old(self).deque,
            final(self).acks_pending == old(self).acks_pending,
            final(self).cpu == old(self).cpu,
            final(self).peers == old(self).peers,
            final(self).busy == old(self).busy,
    {
        if self.not_acked_tasks < usize::MAX {
            self.not_acked_tasks = self.not_acked_tasks + 1;
            self.mailbox.push(task);
            Ok(())
        } else {
            Err(task)
        }
    }

    /// Drain the mailbox into the deque's owner end in arrival order, one
    /// acknowledgement per task moved.
    pub fn receive_work(&mut self)
        requires
            old(self).wf(),
        ensures
            final(self).wf(),
            final(self).deque@ == old(self).deque@ + old(self).mailbox@,
            final(self).mailbox@.len() == 0,
            final(self).not_acked_tasks == old(self).not_acked_tasks,
            final(self).acks_pending == old(self).acks_pending + old(self).mailbox@.len(),
            final(self).cpu == old(self).cpu,
            final(self).peers == old(self).peers,
            final(self).busy == old(self).busy,
            final(self).load() == old(self).load(),
    {
        let ghost m0 = self.mailbox@;
        let ghost d0 = self.deque@;
        let ghost a0 = self.acks_pending;
        let ghost e0 = *self;
        while self.mailbox.len() > 0
            invariant
                self.wf(),
                self.deque@ + self.mailbox@ == d0 + m0,
                self.mailbox@.len() <= m0.len(),
                self.acks_pending == a0 + (m0.len() - self.mailbox@.len()),
                self.not_acked_tasks == e0.not_acked_tasks,
                self.cpu == e0.cpu,
                self.peers == e0.peers,
                self.busy == e0.busy,
            decreases self.mailbox.len(),
        {
            let ghost pre = *self;
            let t = self.mailbox.remove(0);
            self.deque.push(t);
            self.acks_pending = self.acks_pending + 1;
            proof {
                assert(self.deque@ + self.mailbox@ =~= pre.deque@ + pre.mailbox@);
            }
        }
        proof {
            assert(self.deque@ =~= d0 + m0);
        }
    }

    /// The producer-visible load estimate: drain pending acknowledgements,
    /// then report unacknowledged + deque length + one if busy, saturated at
    /// the machine word. Advisory: under a live pool the underlying numbers
    /// move while the caller looks at them.
    pub fn count_tasks(&mut self) -> (n: usize)
        requires
            old(self).wf(),
        ensures
            final(self).wf(),
            final(self).not_acked_tasks == old(self).mailbox@.len(),
            final(self).acks_pending == 0,
            final(self).mailbox == old(self).mailbox,
            final(self).deque == old(self).deque,
            final(self).cpu == old(self).cpu,
            final(self).peers == old(self).peers,
            final(self).busy == old(self).busy,
            final(self).load() == old(self).load(),
            n == vstd::math::min(old(self).load(), usize::MAX as int),
    {
        self.not_acked_tasks = self.not_acked_tasks - self.acks_pending;
        self.acks_pending = 0;
        let base: usize = if self.not_acked_tasks <= usize::MAX - self.deque.len() {
            self.not_acked_tasks + self.deque.len()
        } else {
            usize::MAX
        };
        if self.busy {
            if base < usize::MAX {
                base + 1
            } else {
                base
            }
        } else {
            base
        }
    }

    /// Take the oldest queued task for one tick and route it by the state it
    /// reports: Incomplete goes back on the deque, Complete is handed off to
    /// its waiter, Error and Unstarted are dropped. Beside the outcome comes
    /// a ghost of the task as the tick left it, so that the outcome is held
    /// to the state the ticked task reported.
    pub fn do_work(&mut self) -> (r: (WorkOutcome, Ghost<Option<T>>))
        requires
            old(self).wf(),
        ensures
            final(self).wf(),
            final(self).mailbox == old(self).mailbox,
            final(self).not_acked_tasks == old(self).not_acked_tasks,
            final(self).acks_pending == old(self).acks_pending,
            final(self).cpu == old(self).cpu,
            final(self).peers == old(self).peers,
            r.0 is Idle <==> old(self).deque@.len() == 0,
            r.0 is Idle ==> *final(self) == *old(self) && r.1@ is None,
            !(r.0 is Idle) ==> final(self).busy == false && r.1@ is Some && ({
                let t = r.1@->0;
                &&& T::tick_rel(old(self).deque@[0], t)
                &&& t.inv()
                &&& t.steals_of() == old(self).deque@[0].steals_of()
                &&& (r.0 is Requeued <==> t.state_of() is Incomplete)
                &&& (r.0 is Completed <==> t.state_of() is Complete)
                &&& (r.0 is Errored <==> t.state_of() is Error)
                &&& (r.0 is DroppedUnstarted <==> t.state_of() is Unstarted)
            }),
            r.0 is Requeued ==> final(self).deque@.len() == old(self).deque@.len()
                && final(self).deque@.drop_last() == old(self).deque@.subrange(
                1,
                old(self).deque@.len() as int,
            ) && final(self).deque@.last() == r.1@->0,
            (r.0 is Completed || r.0 is Errored || r.0 is DroppedUnstarted) ==> final(self).deque@
                == old(self).deque@.subrange(1, old(self).deque@.len() as int),
    {
        if self.deque.len() == 0 {
            return (WorkOutcome::Idle, Ghost(None));
        }
        let mut t = self.deque.remove(0);
        self.busy = true;
        t.tick();
        let ghost ticked = t;
        let s = t.get_state();
        let o = match s {
            TaskState::Incomplete => {
                self.deque.push(t);
                proof {
                    assert(self.deque@.drop_last() =~= old(self).deque@.subrange(
                        1,
                        old(self).deque@.len() as int,
                    ));
                }
                WorkOutcome::Requeued
            },
            TaskState::Complete => {
                t.complete();
                WorkOutcome::Completed
            },
            TaskState::Error => WorkOutcome::Errored,
            TaskState::Unstarted => WorkOutcome::DroppedUnstarted,
        };
        self.busy = false;
        (o, Ghost(Some(ticked)))
    }

    /// What a peer's stealer sees: the deque length.
    pub fn steal_len(&self) -> (n: usize)
        ensures
            n == self.deque@.len(),
    {
        self.deque.len()
    }

    /// The victim's half of a steal: give up the oldest queued task, if any.
    pub fn give_stolen(&mut self) -> (r: Option<T>)
        requires
            old(self).wf(),
        ensures
            final(self).wf(),
            old(self).deque@.len() == 0 ==> r is None && *final(self) == *old(self),
            old(self).deque@.len() > 0 ==> r == Some(old(self).deque@[0]) && final(self).deque@
                == old(self).deque@.subrange(1, old(self).deque@.len() as int),
            final(self).mailbox == old(self).mailbox,
            final(self).not_acked_tasks == old(self).not_acked_tasks,
            final(self).acks_pending == old(self).acks_pending,
            final(self).cpu == old(self).cpu,
            final(self).peers == old(self).peers,
            final(self).busy == old(self).busy,
    {
        if self.deque.len() == 0 {
            None
        } else {
            Some(self.deque.remove(0))
        }
    }

    /// The thief's half of a steal: mark the task stolen and push it onto the
    /// local deque's owner end.
    pub fn accept_stolen(&mut self, task: T)
        requires
            old(self).wf(),
            queued(task),
        ensures
            final(self).wf(),
            final(self).deque@.len() == old(self).deque@.len() + 1,
            final(self).deque@.drop_last() == old(self).deque@,
            final(self).deque@.last().state_of() == task.state_of(),
            final(self).deque@.last().steals_of() == if task.steals_of() < usize::MAX as int {
                task.steals_of() + 1
            } else {
                task.steals_of()
            },
            final(self).mailbox == old(self).mailbox,
            final(self).not_acked_tasks == old(self).not_acked_tasks,
            final(self).acks_pending == old(self).acks_pending,
            final(self).cpu == old(self).cpu,
            final(self).peers == old(self).peers,
            final(self).busy == old(self).busy,
    {
        let mut t = task;
        t.mark_stolen();
        self.deque.push(t);
        proof {
            assert(self.deque@.drop_last() =~= old(self).deque@);
        }
    }
}

} // verus!
