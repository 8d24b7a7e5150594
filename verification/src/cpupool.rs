//! The top-level façade: a fleet of executors, wired for work-stealing or
//! kept segregated, with a dispatch policy and the pool-wide accounting that
//! ties the whole scheduler together. The pool invariant carries the load
//! conservation law — every submitted task is either still queued somewhere
//! or has left as completed, errored, or dropped — and, in segregated mode,
//! that no task is ever stolen.

use vstd::prelude::*;

use crate::SchedulerError;
use crate::dispatcher::{DispatchPolicy, pick_steal_victim, same_shape, select_executor};
use crate::executor::{Executor, WorkOutcome, queued};
use crate::task::Iterable;

verus! {

#[derive(Clone, Copy, PartialEq, Eq, Structural, Debug)]
pub enum PoolMode {
    /// Every executor may steal from every other.
    WorkStealing,
    /// No stealers are exchanged; tasks never migrate across executors.
    Segregated,
}

/// Tasks resident in one executor's queues.
pub open spec fn tasks_in<T: Iterable>(e: Executor<T>) -> int {
    e.mailbox@.len() + e.deque@.len() as int
}

/// Tasks resident across a fleet.
pub open spec fn total_tasks<T: Iterable>(s: Seq<Executor<T>>) -> int
    decreases s.len(),
{
    if s.len() == 0 {
        0
    } else {
        total_tasks(s.drop_last()) + tasks_in(s.last())
    }
}

proof fn lemma_total_tasks_nonneg<T: Iterable>(s: Seq<Executor<T>>)
    ensures
        total_tasks(s) >= 0,
    decreases s.len(),
{
    if s.len() > 0 {
        lemma_total_tasks_nonneg(s.drop_last());
    }
}

proof fn lemma_total_tasks_elem<T: Iterable>(s: Seq<Executor<T>>, i: int)
    requires
        0 <= i < s.len(),
    ensures
        total_tasks(s) >= tasks_in(s[i]),
    decreases s.len(),
{
    if i == s.len() - 1 {
        lemma_total_tasks_nonneg(s.drop_last());
    } else {
        lemma_total_tasks_elem(s.drop_last(), i);
    }
}

proof fn lemma_total_tasks_update<T: Iterable>(s: Seq<Executor<T>>, i: int, e: Executor<T>)
    requires
        0 <= i < s.len(),
    ensures
        total_tasks(s.update(i, e)) == total_tasks(s) - tasks_in(s[i]) + tasks_in(e),
    decreases s.len(),
{
    let t = s.update(i, e);
    if i == s.len() - 1 {
        assert(t.drop_last() =~= s.drop_last());
    } else {
        assert(t.drop_last() =~= s.drop_last().update(i, e));
        assert(t.last() == s.last());
        lemma_total_tasks_update(s.drop_last(), i, e);
    }
}

proof fn lemma_total_tasks_push<T: Iterable>(s: Seq<Executor<T>>, e: Executor<T>)
    ensures
        total_tasks(s.push(e)) == total_tasks(s) + tasks_in(e),
{
    assert(s.push(e).drop_last() =~= s);
}

/// No task anywhere in the executor has ever been stolen.
pub open spec fn zero_steals<T: Iterable>(e: Executor<T>) -> bool {
    &&& forall|i: int| 0 <= i < e.mailbox@.len() ==> (#[trigger] e.mailbox@[i]).steals_of() == 0
    &&& forall|i: int| 0 <= i < e.deque@.len() ==> (#[trigger] e.deque@[i]).steals_of() == 0
}

/// The peers executor `i` in a fleet of `n` may steal from: in work-stealing
/// mode every other executor, in ascending order; in segregated mode nobody.
pub open spec fn peers_ok<T: Iterable>(mode: PoolMode, n: int, i: int, e: Executor<T>) -> bool {
    match mode {
        PoolMode::Segregated => e.peers@.len() == 0,
        PoolMode::WorkStealing => {
            &&& e.peers@.len() == n - 1
            &&& forall|k: int|
                0 <= k < e.peers@.len() ==> (#[trigger] e.peers@[k]) as int == (if k < i {
                    k
                } else {
                    k + 1
                })
        },
    }
}

pub struct CpuPool<T> {
    pub executors: Vec<Executor<T>>,
    pub policy: DispatchPolicy,
    pub mode: PoolMode,
    /// Tasks accepted by `schedule`.
    pub submitted: usize,
    /// Tasks that reached Complete and were handed to their waiters.
    pub completed: usize,
    /// Tasks that reported Error and were dropped.
    pub errored: usize,
    /// Tasks that still reported Unstarted after a tick and were dropped.
    pub dropped_unstarted: usize,
    /// Successful steals across the fleet.
    pub steals_taken: usize,
}

impl<T: Iterable> CpuPool<T> {
    pub open spec fn wf(&self) -> bool {
        &&& forall|i: int| 0 <= i < self.executors@.len() ==> (#[trigger] self.executors@[i]).wf()
        &&& forall|i: int|
            0 <= i < self.executors@.len() ==> peers_ok(
                self.mode,
                self.executors@.len() as int,
                i,
                #[trigger] self.executors@[i],
            )
        &&& forall|i: int|
            0 <= i < self.executors@.len() ==> (#[trigger] self.executors@[i]).not_acked_tasks
                <= self.submitted
        &&& self.submitted == self.completed + self.errored + self.dropped_unstarted + total_tasks(
            self.executors@,
        )
        &&& (self.mode is Segregated ==> forall|i: int|
            0 <= i < self.executors@.len() ==> zero_steals(#[trigger] self.executors@[i]))
    }

    fn build_peers(mode: PoolMode, n: usize, i: usize) -> (peers: Vec<usize>)
        requires
            i < n,
        ensures
            mode is Segregated ==> peers@.len() == 0,
            mode is WorkStealing ==> peers@.len() == n - 1 && forall|k: int|
                0 <= k < peers@.len() ==> (#[trigger] peers@[k]) as int == (if k < i {
                    k
                } else {
                    k + 1
                }),
    {
        match mode {
            PoolMode::Segregated => Vec::new(),
            PoolMode::WorkStealing => {
                let mut peers: Vec<usize> = Vec::new();
                let mut j: usize = 0;
                while j < n
                    invariant
                        j <= n,
                        i < n,
                        peers@.len() == (if j <= i {
                            j as int
                        } else {
                            j - 1
                        }),
                        forall|k: int|
                            0 <= k < peers@.len() ==> (#[trigger] peers@[k]) as int == (if k < i {
                                k
                            } else {
                                k + 1
                            }),
                    decreases n - j,
                {
                    if j != i {
                        peers.push(j);
                    }
                    j = j + 1;
                }
                peers
            },
        }
    }

    /// Assemble a pool with one executor per entry of `cpu_thread_list`,
    /// pinned to the listed CPU indices, wired for the given mode.
    pub fn new_from_list(mode: PoolMode, policy: DispatchPolicy, cpu_thread_list: Vec<usize>) -> (p:
        CpuPool<T>)
        ensures
            p.wf(),
            p.mode == mode,
            p.policy == policy,
            p.executors@.len() == cpu_thread_list@.len(),
            forall|i: int|
                0 <= i < p.executors@.len() ==> (#[trigger] p.executors@[i]).cpu
                    == cpu_thread_list@[i] && p.executors@[i].mailbox@.len() == 0
                    && p.executors@[i].deque@.len() == 0,
            p.submitted == 0,
            p.completed == 0,
            p.errored == 0,
            p.dropped_unstarted == 0,
            p.steals_taken == 0,
    {
        let n = cpu_thread_list.len();
        let mut executors: Vec<Executor<T>> = Vec::new();
        let mut i: usize = 0;
        while i < n
            invariant
                i <= n,
                n == cpu_thread_list@.len(),
                executors@.len() == i,
                forall|j: int|
                    0 <= j < i ==> (#[trigger] executors@[j]).wf() && executors@[j].cpu
                        == cpu_thread_list@[j] && executors@[j].mailbox@.len() == 0
                        && executors@[j].deque@.len() == 0 && executors@[j].not_acked_tasks == 0,
                forall|j: int|
                    0 <= j < i ==> peers_ok(mode, n as int, j, #[trigger] executors@[j]),
                forall|j: int| 0 <= j < i ==> zero_steals(#[trigger] executors@[j]),
                total_tasks(executors@) == 0,
            decreases n - i,
        {
            let peers = Self::build_peers(mode, n, i);
            let e = Executor::new(cpu_thread_list[i], peers);
            proof {
                lemma_total_tasks_push(executors@, e);
            }
            executors.push(e);
            i = i + 1;
        }
        CpuPool {
            executors,
            policy,
            mode,
            submitted: 0,
            completed: 0,
            errored: 0,
            dropped_unstarted: 0,
            steals_taken: 0,
        }
    }

    /// Assemble a pool of `n_threads` executors where executor `i` is pinned
    /// to core `i % n_cores`.
    pub fn new(mode: PoolMode, policy: DispatchPolicy, n_threads: usize, n_cores: usize) -> (p:
        CpuPool<T>)
        requires
            n_cores >= 1,
        ensures
            p.wf(),
            p.mode == mode,
            p.policy == policy,
            p.executors@.len() == n_threads,
            forall|i: int|
                0 <= i < p.executors@.len() ==> (#[trigger] p.executors@[i]).cpu as int == i % (
                n_cores as int) && p.executors@[i].mailbox@.len() == 0
                    && p.executors@[i].deque@.len() == 0,
            p.submitted == 0,
            p.completed == 0,
            p.errored == 0,
            p.dropped_unstarted == 0,
            p.steals_taken == 0,
    {
        let mut cpu_list: Vec<usize> = Vec::new();
        let mut i: usize = 0;
        while i < n_threads
            invariant
                i <= n_threads,
                n_cores >= 1,
                cpu_list@.len() == i,
                forall|j: int|
                    0 <= j < i ==> (#[trigger] cpu_list@[j]) as int == j % (n_cores as int),
            decreases n_threads - i,
        {
            cpu_list.push(i % n_cores);
            i = i + 1;
        }
        Self::new_from_list(mode, policy, cpu_list)
    }

    /// Submit a task: the dispatcher picks an executor, the task joins its
    /// mailbox, and the chosen CPU index comes back for observability.
    /// Fails with Configuration on an empty fleet, and with Scheduling when
    /// the pool can accept no more work.
    pub fn schedule(&mut self, task: T) -> (r: Result<usize, SchedulerError>)
        requires
            old(self).wf(),
            queued(task),
            task.steals_of() == 0,
        ensures
            final(self).wf(),
            final(self).mode == old(self).mode,
            final(self).policy == old(self).policy,
            final(self).executors@.len() == old(self).executors@.len(),
            final(self).completed == old(self).completed,
            final(self).errored == old(self).errored,
            final(self).dropped_unstarted == old(self).dropped_unstarted,
            final(self).steals_taken == old(self).steals_taken,
            r is Ok <==> (old(self).executors@.len() > 0 && old(self).submitted < usize::MAX),
            old(self).executors@.len() == 0 ==> r == Err::<usize, SchedulerError>(
                SchedulerError::Configuration,
            ),
            (old(self).executors@.len() > 0 && old(self).submitted == usize::MAX) ==> r
                == Err::<usize, SchedulerError>(SchedulerError::Scheduling),
            r is Err ==> final(self).submitted == old(self).submitted && total_tasks(
                final(self).executors@,
            ) == total_tasks(old(self).executors@),
            r is Ok ==> final(self).submitted == old(self).submitted + 1 && (exists|c: int|
                #![trigger final(self).executors@[c]]
                ({
                    let before = old(self).executors@;
                    let after = final(self).executors@;
                    &&& 0 <= c < before.len()
                    &&& r == Ok::<usize, SchedulerError>(before[c].cpu)
                    &&& after[c].mailbox@ == before[c].mailbox@.push(task)
                    &&& after[c].load() == before[c].load() + 1
                    &&& (forall|j: int|
                        0 <= j < before.len() && j != c ==> (#[trigger] after[j]).load()
                            == before[j].load())
                    &&& (old(self).policy is LoadAware ==> (forall|j: int|
                        0 <= j < before.len() ==> crate::executor::count_of(before[c])
                            <= crate::executor::count_of(#[trigger] before[j])))
                })),
    {
        let n = self.executors.len();
        if n == 0 {
            return Err(SchedulerError::Configuration);
        }
        if self.submitted == usize::MAX {
            return Err(SchedulerError::Scheduling);
        }
        let ghost pre = *self;
        let c_opt = select_executor(self.policy, &mut self.executors);
        let c = c_opt.unwrap();
        let ghost mid = self.executors@;
        let cpu = self.executors[c].get_cpu();
        proof {
            assert(same_shape(pre.executors@[c as int], mid[c as int]));
            assert(mid[c as int].wf());
        }
        let res = self.executors[c].schedule(task);
        proof {
            assert(self.executors@ == mid.update(c as int, self.executors@[c as int]));
        }
        match res {
            Ok(()) => {},
            Err(_) => {
                // Unreachable: each executor's unacknowledged counter stays
                // at or below the pool's submission counter, checked above.
                proof {
                    assert(false);
                }
            },
        }
        self.submitted = self.submitted + 1;
        proof {
            let e1 = self.executors@;
            assert(e1[c as int].mailbox@ == pre.executors@[c as int].mailbox@.push(task));
            assert forall|j: int| 0 <= j < e1.len() implies (#[trigger] e1[j]).wf() by {
                assert(same_shape(pre.executors@[j], mid[j]));
                assert(mid[j].wf());
            }
            assert forall|j: int| 0 <= j < e1.len() implies peers_ok(
                self.mode,
                e1.len() as int,
                j,
                #[trigger] e1[j],
            ) by {
                assert(same_shape(pre.executors@[j], mid[j]));
                assert(peers_ok(pre.mode, e1.len() as int, j, pre.executors@[j]));
            }
            assert forall|j: int| 0 <= j < e1.len() implies (#[trigger] e1[j]).not_acked_tasks
                <= self.submitted by {
                assert(same_shape(pre.executors@[j], mid[j]));
            }
            // conservation: only executor c gained one mailbox entry
            assert forall|j: int| 0 <= j < e1.len() implies tasks_in(#[trigger] mid[j]) == tasks_in(
                pre.executors@[j],
            ) by {
                assert(same_shape(pre.executors@[j], mid[j]));
            }
            lemma_total_tasks_seq_same(pre.executors@, mid);
            lemma_total_tasks_update(mid, c as int, e1[c as int]);
            assert(cpu == pre.executors@[c as int].cpu);
            assert(e1[c as int].load() == pre.executors@[c as int].load() + 1);
            assert forall|j: int|
                0 <= j < pre.executors@.len() && j != c implies (#[trigger] e1[j]).load()
                == pre.executors@[j].load() by {
                assert(same_shape(pre.executors@[j], mid[j]));
            }
            if self.mode is Segregated {
                assert forall|j: int| 0 <= j < e1.len() implies zero_steals(
                    #[trigger] e1[j],
                ) by {
                    assert(same_shape(pre.executors@[j], mid[j]));
                    assert(zero_steals(pre.executors@[j]));
                }
            }
        }
        Ok(cpu)
    }

    /// One iteration of executor `i`'s worker loop: drain the mailbox, run
    /// the oldest task for one tick and route it by the state it reports,
    /// and on an empty deque attempt one steal from the longest peer deque;
    /// a stolen task runs at once, as the worker's next loop pass would run
    /// it.
    ///
    /// Law (liveness): Idle comes back exactly when the executor found no
    /// work anywhere it can reach — its own queues were empty and every peer
    /// deque was empty too. Any other outcome means exactly one queued task
    /// ran for one tick (the returned ghost is that task as the tick left
    /// it, and the outcome names the state it reported), so tasks whose
    /// steppers complete within a bounded number of ticks are delivered
    /// within a bounded number of passes.
    pub fn run_step(&mut self, i: usize) -> (r: (WorkOutcome, Ghost<Option<T>>))
        requires
            old(self).wf(),
            i < old(self).executors@.len(),
        ensures
            final(self).wf(),
            final(self).executors@.len() == old(self).executors@.len(),
            final(self).mode == old(self).mode,
            final(self).policy == old(self).policy,
            final(self).submitted == old(self).submitted,
            final(self).completed as int == old(self).completed + (if r.0 is Completed {
                1int
            } else {
                0int
            }),
            final(self).errored as int == old(self).errored + (if r.0 is Errored {
                1int
            } else {
                0int
            }),
            final(self).dropped_unstarted as int == old(self).dropped_unstarted + (
            if r.0 is DroppedUnstarted {
                1int
            } else {
                0int
            }),
            final(self).executors@[i as int].mailbox@.len() == 0,
            forall|j: int|
                0 <= j < old(self).executors@.len() && j != i
                    ==> (#[trigger] final(self).executors@[j]).mailbox
                    == old(self).executors@[j].mailbox,
            r.0 is Idle <==> (tasks_in(old(self).executors@[i as int]) == 0 && (forall|k: int|
                0 <= k < old(self).executors@[i as int].peers@.len()
                    ==> old(self).executors@[(#[trigger] old(self).executors@[i as int].peers@[k]) as int].deque@.len() == 0)),
            r.0 is Idle ==> tasks_in(final(self).executors@[i as int]) == 0,
            !(r.0 is Idle) ==> r.1@ is Some && ({
                let t = r.1@->0;
                &&& t.inv()
                &&& (r.0 is Requeued <==> t.state_of() is Incomplete)
                &&& (r.0 is Completed <==> t.state_of() is Complete)
                &&& (r.0 is Errored <==> t.state_of() is Error)
                &&& (r.0 is DroppedUnstarted <==> t.state_of() is Unstarted)
            }),
    {
        let ghost pre = *self;
        let first = self.work_once(i);
        match first.0 {
            WorkOutcome::Idle => {
                proof {
                    lemma_peers_exclude_self(pre, i as int);
                }
                let stolen = self.steal_work(i);
                match stolen {
                    Some(_) => self.work_once(i),
                    None => first,
                }
            },
            _ => first,
        }
    }

    /// Drain the mailbox of executor `i`, then run its oldest queued task
    /// for one tick and route it by the state it reports. Beside the outcome
    /// comes a ghost of the task as the tick left it; the outcome names the
    /// state that task reported, and the task itself is one tick of the
    /// oldest task the executor held.
    fn work_once(&mut self, i: usize) -> (r: (WorkOutcome, Ghost<Option<T>>))
        requires
            old(self).wf(),
            i < old(self).executors@.len(),
        ensures
            final(self).wf(),
            final(self).executors@.len() == old(self).executors@.len(),
            final(self).mode == old(self).mode,
            final(self).policy == old(self).policy,
            final(self).submitted == old(self).submitted,
            final(self).steals_taken == old(self).steals_taken,
            final(self).completed as int == old(self).completed + (if r.0 is Completed {
                1int
            } else {
                0int
            }),
            final(self).errored as int == old(self).errored + (if r.0 is Errored {
                1int
            } else {
                0int
            }),
            final(self).dropped_unstarted as int == old(self).dropped_unstarted + (
            if r.0 is DroppedUnstarted {
                1int
            } else {
                0int
            }),
            final(self).executors@[i as int].mailbox@.len() == 0,
            final(self).executors@[i as int].peers == old(self).executors@[i as int].peers,
            r.0 is Idle <==> tasks_in(old(self).executors@[i as int]) == 0,
            r.0 is Idle ==> tasks_in(final(self).executors@[i as int]) == 0 && r.1@ is None,
            !(r.0 is Idle) ==> r.1@ is Some && ({
                let t = r.1@->0;
                &&& T::tick_rel(
                    (old(self).executors@[i as int].deque@
                        + old(self).executors@[i as int].mailbox@)[0],
                    t,
                )
                &&& t.inv()
                &&& (r.0 is Requeued <==> t.state_of() is Incomplete)
                &&& (r.0 is Completed <==> t.state_of() is Complete)
                &&& (r.0 is Errored <==> t.state_of() is Error)
                &&& (r.0 is DroppedUnstarted <==> t.state_of() is Unstarted)
            }),
            r.0 is Requeued ==> final(self).executors@[i as int].deque@.last() == r.1@->0,
            forall|j: int|
                0 <= j < old(self).executors@.len() && j != i ==> final(self).executors@[j]
                    == old(self).executors@[j],
    {
        let ghost pre = *self;
        let mut e = self.executors.remove(i);
        let ghost orig = e;
        e.receive_work();
        let ghost received = e;
        let (o, g) = e.do_work();
        self.executors.insert(i, e);
        proof {
            assert(self.executors@ =~= pre.executors@.update(i as int, e));
            lemma_total_tasks_update(pre.executors@, i as int, e);
            lemma_total_tasks_elem(pre.executors@, i as int);
            assert(tasks_in(received) == tasks_in(orig));
            if pre.mode is Segregated {
                lemma_zero_steals_step(orig, received, e, o);
                assert forall|j: int| 0 <= j < self.executors@.len() implies zero_steals(
                    #[trigger] self.executors@[j],
                ) by {
                    if j != i {
                        assert(self.executors@[j] == pre.executors@[j]);
                        assert(zero_steals(pre.executors@[j]));
                    }
                }
            }
            assert forall|j: int| 0 <= j < self.executors@.len() implies (
            #[trigger] self.executors@[j]).wf() by {
                if j != i {
                    assert(self.executors@[j] == pre.executors@[j]);
                }
            }
            assert forall|j: int| 0 <= j < self.executors@.len() implies peers_ok(
                self.mode,
                self.executors@.len() as int,
                j,
                #[trigger] self.executors@[j],
            ) by {
                assert(peers_ok(pre.mode, pre.executors@.len() as int, j, pre.executors@[j]));
                if j != i {
                    assert(self.executors@[j] == pre.executors@[j]);
                }
            }
            assert forall|j: int|
                0 <= j < self.executors@.len() implies (#[trigger] self.executors@[j]).not_acked_tasks
                <= self.submitted by {
                if j != i {
                    assert(self.executors@[j] == pre.executors@[j]);
                }
            }
        }
        match o {
            WorkOutcome::Completed => {
                self.completed = self.completed + 1;
            },
            WorkOutcome::Errored => {
                self.errored = self.errored + 1;
            },
            WorkOutcome::DroppedUnstarted => {
                self.dropped_unstarted = self.dropped_unstarted + 1;
            },
            WorkOutcome::Requeued => {},
            WorkOutcome::Idle => {},
        }
        (o, g)
    }

    /// Attempt one steal for executor `thief`: pick the peer with the
    /// longest deque, move its oldest task over, and mark the task stolen.
    /// Returns the victim's index when a task moved. In segregated mode
    /// there are no peers, so nothing ever moves.
    pub fn steal_work(&mut self, thief: usize) -> (victim: Option<usize>)
        requires
            old(self).wf(),
            thief < old(self).executors@.len(),
        ensures
            final(self).wf(),
            final(self).executors@.len() == old(self).executors@.len(),
            final(self).mode == old(self).mode,
            final(self).policy == old(self).policy,
            final(self).submitted == old(self).submitted,
            final(self).completed == old(self).completed,
            final(self).errored == old(self).errored,
            final(self).dropped_unstarted == old(self).dropped_unstarted,
            victim is None ==> *final(self) == *old(self),
            victim is None <==> (forall|k: int|
                0 <= k < old(self).executors@[thief as int].peers@.len()
                    ==> old(self).executors@[(#[trigger] old(self).executors@[thief as int].peers@[k]) as int].deque@.len() == 0),
            old(self).mode is Segregated ==> victim is None,
            victim matches Some(v) ==> (exists|k: int|
                0 <= k < old(self).executors@[thief as int].peers@.len()
                    && old(self).executors@[thief as int].peers@[k] == v),
            victim matches Some(v) ==> (forall|k: int|
                0 <= k < old(self).executors@[thief as int].peers@.len()
                    ==> old(self).executors@[(#[trigger] old(self).executors@[thief as int].peers@[k]) as int].deque@.len() <= old(self).executors@[v as int].deque@.len()),
            victim matches Some(v) ==> ({
                let vdeq = old(self).executors@[v as int].deque@;
                let tdeq = old(self).executors@[thief as int].deque@;
                let moved = vdeq[0];
                &&& 0 <= v < old(self).executors@.len()
                &&& v != thief
                &&& vdeq.len() > 0
                &&& final(self).executors@[v as int].deque@ == vdeq.subrange(1, vdeq.len() as int)
                &&& final(self).executors@[v as int].mailbox == old(self).executors@[v as int].mailbox
                &&& final(self).executors@[thief as int].mailbox == old(self).executors@[thief as int].mailbox
                &&& final(self).executors@[thief as int].deque@.drop_last() == tdeq
                &&& final(self).executors@[thief as int].deque@.len() == tdeq.len() + 1
                &&& final(self).executors@[thief as int].deque@.last().state_of()
                    == moved.state_of()
                &&& final(self).executors@[thief as int].deque@.last().steals_of() == (
                if moved.steals_of() < usize::MAX as int {
                    moved.steals_of() + 1
                } else {
                    moved.steals_of()
                })
                &&& (forall|j: int|
                    0 <= j < old(self).executors@.len() && j != v && j != thief
                        ==> #[trigger] final(self).executors@[j] == old(self).executors@[j])
                &&& final(self).steals_taken as int == (if old(self).steals_taken < usize::MAX {
                    old(self).steals_taken + 1
                } else {
                    old(self).steals_taken as int
                })
            }),
    {
        let ghost pre = *self;
        let n_peers = self.executors[thief].peers.len();
        let mut lengths: Vec<usize> = Vec::new();
        let mut k: usize = 0;
        while k < n_peers
            invariant
                pre.wf(),
                *self == pre,
                thief < pre.executors@.len(),
                n_peers == pre.executors@[thief as int].peers@.len(),
                k <= n_peers,
                lengths@.len() == k,
                forall|q: int|
                    0 <= q < k ==> #[trigger] lengths@[q]
                        == pre.executors@[pre.executors@[thief as int].peers@[q] as int].deque@.len(),
            decreases n_peers - k,
        {
            proof {
                assert(peers_ok(
                    pre.mode,
                    pre.executors@.len() as int,
                    thief as int,
                    pre.executors@[thief as int],
                ));
            }
            let p = self.executors[thief].peers[k];
            let l = self.executors[p].steal_len();
            lengths.push(l);
            k = k + 1;
        }
        match pick_steal_victim(&lengths) {
            None => {
                proof {
                    assert forall|k2: int|
                        0 <= k2 < pre.executors@[thief as int].peers@.len() implies pre.executors@[(
                    #[trigger] pre.executors@[thief as int].peers@[k2]) as int].deque@.len()
                        == 0 by {
                        assert(lengths@[k2] == 0);
                    }
                }
                None
            },
            Some(kk) => {
                proof {
                    assert(peers_ok(
                        pre.mode,
                        pre.executors@.len() as int,
                        thief as int,
                        pre.executors@[thief as int],
                    ));
                }
                let v = self.executors[thief].peers[kk];
                proof {
                    assert(pre.executors@[thief as int].peers@[kk as int] == v);
                    assert(pre.executors@[(pre.executors@[thief as int].peers@[kk as int]) as int].deque@.len() > 0);
                    assert forall|k2: int|
                        0 <= k2 < pre.executors@[thief as int].peers@.len() implies pre.executors@[(
                    #[trigger] pre.executors@[thief as int].peers@[k2]) as int].deque@.len()
                        <= pre.executors@[v as int].deque@.len() by {
                        assert(lengths@[k2] <= lengths@[kk as int]);
                    }
                }
                let mut victim_e = self.executors.remove(v);
                let t_opt = victim_e.give_stolen();
                self.executors.insert(v, victim_e);
                let ghost mid = self.executors@;
                proof {
                    assert(mid =~= pre.executors@.update(v as int, victim_e));
                    lemma_total_tasks_update(pre.executors@, v as int, victim_e);
                }
                let task = t_opt.unwrap();
                let mut thief_e = self.executors.remove(thief);
                thief_e.accept_stolen(task);
                self.executors.insert(thief, thief_e);
                self.steals_taken = if self.steals_taken < usize::MAX {
                    self.steals_taken + 1
                } else {
                    self.steals_taken
                };
                proof {
                    assert(self.executors@ =~= mid.update(thief as int, thief_e));
                    lemma_total_tasks_update(mid, thief as int, thief_e);
                }
                Some(v)
            },
        }
    }

    /// Drive executor `i` for up to `steps` iterations of its worker loop.
    /// After at least one step, the executor's mailbox is drained; no other
    /// executor's mailbox is touched.
    pub fn run_steps(&mut self, i: usize, steps: usize)
        requires
            old(self).wf(),
            i < old(self).executors@.len(),
        ensures
            final(self).wf(),
            final(self).executors@.len() == old(self).executors@.len(),
            final(self).mode == old(self).mode,
            final(self).policy == old(self).policy,
            final(self).submitted == old(self).submitted,
            steps > 0 ==> final(self).executors@[i as int].mailbox@.len() == 0,
            forall|j: int|
                0 <= j < old(self).executors@.len() && j != i
                    ==> (#[trigger] final(self).executors@[j]).mailbox
                    == old(self).executors@[j].mailbox,
    {
        let ghost pre = *self;
        let mut s: usize = 0;
        while s < steps
            invariant
                self.wf(),
                s <= steps,
                i < self.executors@.len(),
                self.executors@.len() == pre.executors@.len(),
                self.mode == pre.mode,
                self.policy == pre.policy,
                self.submitted == pre.submitted,
                s > 0 ==> self.executors@[i as int].mailbox@.len() == 0,
                forall|j: int|
                    0 <= j < pre.executors@.len() && j != i
                        ==> (#[trigger] self.executors@[j]).mailbox
                        == pre.executors@[j].mailbox,
            decreases steps - s,
        {
            let _ = self.run_step(i);
            s = s + 1;
        }
    }

    /// Drive the whole fleet round-robin for `rounds` rounds. After at least
    /// one round, every mailbox has been drained into its deque.
    pub fn run(&mut self, rounds: usize)
        requires
            old(self).wf(),
        ensures
            final(self).wf(),
            final(self).executors@.len() == old(self).executors@.len(),
            final(self).mode == old(self).mode,
            final(self).policy == old(self).policy,
            final(self).submitted == old(self).submitted,
            rounds > 0 ==> (forall|j: int|
                0 <= j < final(self).executors@.len()
                    ==> (#[trigger] final(self).executors@[j]).mailbox@.len() == 0),
    {
        let ghost pre = *self;
        let mut r: usize = 0;
        while r < rounds
            invariant
                self.wf(),
                r <= rounds,
                self.executors@.len() == pre.executors@.len(),
                self.mode == pre.mode,
                self.policy == pre.policy,
                self.submitted == pre.submitted,
                r > 0 ==> (forall|j: int|
                    0 <= j < self.executors@.len() ==> (#[trigger] self.executors@[j]).mailbox@.len()
                        == 0),
            decreases rounds - r,
        {
            let mut i: usize = 0;
            while i < self.executors.len()
                invariant
                    self.wf(),
                    i <= self.executors@.len(),
                    self.executors@.len() == pre.executors@.len(),
                    self.mode == pre.mode,
                    self.policy == pre.policy,
                    self.submitted == pre.submitted,
                    forall|j: int|
                        0 <= j < i ==> (#[trigger] self.executors@[j]).mailbox@.len() == 0,
                decreases self.executors@.len() - i,
            {
                let _ = self.run_step(i);
                i = i + 1;
            }
            r = r + 1;
        }
    }

    /// Law (load conservation): every submitted task is accounted for — it
    /// still sits in some executor's mailbox or deque, or it left the pool
    /// as completed, errored, or dropped.
    pub proof fn lemma_load_conservation(&self)
        requires
            self.wf(),
        ensures
            self.submitted == self.completed + self.errored + self.dropped_unstarted + total_tasks(
                self.executors@,
            ),
    {
    }

    /// Law (segregated isolation): in segregated mode no task anywhere in
    /// the pool has ever been stolen — every steal count is zero, so every
    /// wait result reports zero steals.
    pub proof fn lemma_segregated_isolation(&self, i: int, k: int)
        requires
            self.wf(),
            self.mode is Segregated,
            0 <= i < self.executors@.len(),
        ensures
            0 <= k < self.executors@[i].deque@.len() ==> self.executors@[i].deque@[k].steals_of()
                == 0,
            0 <= k < self.executors@[i].mailbox@.len()
                ==> self.executors@[i].mailbox@[k].steals_of() == 0,
    {
        assert(zero_steals(self.executors@[i]));
    }
}

/// An executor's peers are other executors of the fleet: in range and never
/// the executor itself.
proof fn lemma_peers_exclude_self<T: Iterable>(p: CpuPool<T>, i: int)
    requires
        p.wf(),
        0 <= i < p.executors@.len(),
    ensures
        forall|k: int|
            0 <= k < p.executors@[i].peers@.len()
                ==> ((#[trigger] p.executors@[i].peers@[k]) as int) < p.executors@.len()
                && (p.executors@[i].peers@[k]) as int != i,
{
    assert(peers_ok(p.mode, p.executors@.len() as int, i, p.executors@[i]));
}

/// Two fleets whose executors hold the same queues hold the same number of
/// tasks.
proof fn lemma_total_tasks_seq_same<T: Iterable>(a: Seq<Executor<T>>, b: Seq<Executor<T>>)
    requires
        a.len() == b.len(),
        forall|j: int| 0 <= j < a.len() ==> tasks_in(#[trigger] b[j]) == tasks_in(a[j]),
    ensures
        total_tasks(a) == total_tasks(b),
    decreases a.len(),
{
    if a.len() > 0 {
        lemma_total_tasks_seq_same(a.drop_last(), b.drop_last());
    }
}

/// Zero steal counts survive one worker-loop iteration: draining the mailbox
/// moves tasks unchanged, and a tick never touches a task's steal count.
proof fn lemma_zero_steals_step<T: Iterable>(
    orig: Executor<T>,
    received: Executor<T>,
    done: Executor<T>,
    o: WorkOutcome,
)
    requires
        zero_steals(orig),
        received.deque@ == orig.deque@ + orig.mailbox@,
        received.mailbox@.len() == 0,
        done.mailbox == received.mailbox,
        o is Idle ==> done == received,
        o is Requeued ==> done.deque@.len() == received.deque@.len() && done.deque@.drop_last()
            == received.deque@.subrange(1, received.deque@.len() as int)
            && done.deque@.last().steals_of() == received.deque@[0].steals_of(),
        (o is Completed || o is Errored || o is DroppedUnstarted) ==> done.deque@
            == received.deque@.subrange(1, received.deque@.len() as int),
        !(o is Idle) ==> received.deque@.len() > 0,
    ensures
        zero_steals(done),
{
    assert forall|x: int|
        0 <= x < received.deque@.len() implies (#[trigger] received.deque@[x]).steals_of()
        == 0 by {
        if x < orig.deque@.len() {
            assert(received.deque@[x] == orig.deque@[x]);
        } else {
            assert(received.deque@[x] == orig.mailbox@[x - orig.deque@.len()]);
        }
    }
    if o is Requeued {
        let n = done.deque@.len();
        assert forall|x: int| 0 <= x < n implies (#[trigger] done.deque@[x]).steals_of() == 0 by {
            if x < n - 1 {
                assert(done.deque@[x] == done.deque@.drop_last()[x]);
                assert(done.deque@[x] == received.deque@[x + 1]);
            } else {
                assert(done.deque@[x] == done.deque@.last());
            }
        }
    } else if o is Completed || o is Errored || o is DroppedUnstarted {
        assert forall|x: int|
            0 <= x < done.deque@.len() implies (#[trigger] done.deque@[x]).steals_of() == 0 by {
            assert(done.deque@[x] == received.deque@[x + 1]);
        }
    }
}

} // verus!
