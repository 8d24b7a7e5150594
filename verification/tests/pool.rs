use scheduler::SchedulerError;
use scheduler::cpupool::{CpuPool, PoolMode};
use scheduler::dispatcher::DispatchPolicy;
use scheduler::primes::PrimeJob;
use scheduler::task::{Step, Task, TaskState};

type PrimeTask = Task<PrimeJob, usize>;

fn prime_task(nth: usize, chunk: usize) -> PrimeTask {
    Task::new(PrimeJob::new(nth, chunk))
}

#[test]
fn single_task_single_executor() {
    let mut pool: CpuPool<PrimeTask> =
        CpuPool::new(PoolMode::WorkStealing, DispatchPolicy::LoadAware, 1, 1);
    let mut task = prime_task(1024, 1024);
    let waiter = task.waiter().unwrap();
    let cpu = pool.schedule(task).unwrap();
    assert_eq!(0, cpu);
    pool.run(3);
    let result = waiter.wait().unwrap();
    assert_eq!(8161, *result.get_result());
    assert_eq!(1, result.get_ticks());
    assert_eq!(0, result.get_n_steals());
    assert!(result.get_cpu_time() <= result.get_total_time());
    assert_eq!(1, pool.completed);
    assert_eq!(1, pool.submitted);
}

#[test]
fn cooperative_multi_tick() {
    let mut pool: CpuPool<PrimeTask> =
        CpuPool::new(PoolMode::WorkStealing, DispatchPolicy::LoadAware, 1, 1);
    let mut task = prime_task(1024, 100);
    let waiter = task.waiter().unwrap();
    pool.schedule(task).unwrap();
    pool.run(15);
    let result = waiter.wait().unwrap();
    assert_eq!(8161, *result.get_result());
    assert_eq!(11, result.get_ticks());
    assert_eq!(0, result.get_n_steals());
    assert!(result.get_cpu_time() <= result.get_total_time());
}

#[test]
fn fair_distribution() {
    let mut pool: CpuPool<PrimeTask> =
        CpuPool::new(PoolMode::WorkStealing, DispatchPolicy::LoadAware, 4, 4);
    let mut waiters = Vec::new();
    for _ in 0..1024 {
        let mut task = prime_task(10, 10);
        waiters.push(task.waiter().unwrap());
        pool.schedule(task).unwrap();
    }
    // Least-loaded dispatch of identical tasks: the mailboxes end up exactly
    // balanced, so the max-min gap at dispatch time is zero here.
    for i in 0..4 {
        assert_eq!(256, pool.executors[i].count_tasks());
    }
    pool.run(260);
    for waiter in waiters {
        let result = waiter.wait().unwrap();
        assert_eq!(29, *result.get_result());
    }
    assert_eq!(1024, pool.completed);
    assert_eq!(1024, pool.submitted);
}

#[test]
fn work_stealing_under_skew() {
    let mut pool: CpuPool<PrimeTask> =
        CpuPool::new(PoolMode::WorkStealing, DispatchPolicy::LoadAware, 2, 2);
    // Least-loaded dispatch alternates over a fresh pool: tasks 1 and 3 land
    // on executor 0, tasks 2 and 4 on executor 1.
    let mut big = prime_task(50, 10);
    let big_waiter = big.waiter().unwrap();
    pool.schedule(big).unwrap();
    let mut small1 = prime_task(10, 10);
    let small1_waiter = small1.waiter().unwrap();
    pool.schedule(small1).unwrap();
    let mut small2 = prime_task(10, 10);
    let small2_waiter = small2.waiter().unwrap();
    pool.schedule(small2).unwrap();
    let mut small3 = prime_task(10, 10);
    let small3_waiter = small3.waiter().unwrap();
    pool.schedule(small3).unwrap();

    // One step on executor 0: its mailbox drains and the multi-tick task
    // runs one tick and is requeued behind the short one.
    pool.run_steps(0, 1);
    // Executor 1 finishes its own two tasks, then steals the short task
    // still queued on executor 0 and finishes it too.
    pool.run_steps(1, 3);
    assert!(pool.steals_taken > 0);
    assert_eq!(1, pool.steals_taken);
    let stolen = small2_waiter.wait().unwrap();
    assert_eq!(29, *stolen.get_result());
    assert_eq!(1, stolen.get_n_steals());
    assert_eq!(29, *small1_waiter.wait().unwrap().get_result());
    assert_eq!(29, *small3_waiter.wait().unwrap().get_result());
    // Let executor 0 finish the long task.
    pool.run_steps(0, 10);
    let big_result = big_waiter.wait().unwrap();
    assert_eq!(229, *big_result.get_result());
    assert_eq!(0, big_result.get_n_steals());
    assert_eq!(4, pool.completed);
}

#[test]
fn segregated_no_steal() {
    let mut pool: CpuPool<PrimeTask> =
        CpuPool::new(PoolMode::Segregated, DispatchPolicy::LoadAware, 2, 2);
    let mut big = prime_task(50, 10);
    let big_waiter = big.waiter().unwrap();
    pool.schedule(big).unwrap();
    let mut small1 = prime_task(10, 10);
    let small1_waiter = small1.waiter().unwrap();
    pool.schedule(small1).unwrap();
    let mut small2 = prime_task(10, 10);
    let small2_waiter = small2.waiter().unwrap();
    pool.schedule(small2).unwrap();

    pool.run_steps(0, 1);
    // Executor 1 runs dry and stays dry: no peers, so nothing to steal.
    pool.run_steps(1, 10);
    assert_eq!(0, pool.steals_taken);
    assert_eq!(29, *small1_waiter.wait().unwrap().get_result());
    pool.run_steps(0, 10);
    assert_eq!(29, *small2_waiter.wait().unwrap().get_result());
    let big_result = big_waiter.wait().unwrap();
    assert_eq!(229, *big_result.get_result());
    assert_eq!(0, big_result.get_n_steals());
    // A second wait on an already-served waiter reports the closed channel.
    assert!(small1_waiter.wait().is_err());
}

#[test]
fn random_dispatch_completes_everything() {
    let mut pool: CpuPool<PrimeTask> =
        CpuPool::new(PoolMode::WorkStealing, DispatchPolicy::Random, 2, 2);
    let mut waiters = Vec::new();
    for _ in 0..10 {
        let mut task = prime_task(10, 10);
        waiters.push(task.waiter().unwrap());
        pool.schedule(task).unwrap();
    }
    pool.run(40);
    assert_eq!(10, pool.completed);
    for waiter in waiters {
        assert_eq!(29, *waiter.wait().unwrap().get_result());
    }
}

#[test]
fn load_conservation_counts() {
    let mut pool: CpuPool<PrimeTask> =
        CpuPool::new(PoolMode::WorkStealing, DispatchPolicy::LoadAware, 2, 2);
    for _ in 0..6 {
        pool.schedule(prime_task(10, 10)).unwrap();
    }
    let queued: usize = (0..2).map(|i| pool.executors[i].count_tasks()).sum();
    assert_eq!(
        pool.submitted,
        pool.completed + pool.errored + pool.dropped_unstarted + queued
    );
    pool.run_steps(0, 2);
    let queued: usize = (0..2).map(|i| pool.executors[i].count_tasks()).sum();
    assert_eq!(
        pool.submitted,
        pool.completed + pool.errored + pool.dropped_unstarted + queued
    );
    pool.run(8);
    assert_eq!(6, pool.completed);
    let queued: usize = (0..2).map(|i| pool.executors[i].count_tasks()).sum();
    assert_eq!(0, queued);
}

#[test]
fn empty_fleet_is_a_configuration_error() {
    let mut pool: CpuPool<PrimeTask> =
        CpuPool::new(PoolMode::WorkStealing, DispatchPolicy::LoadAware, 0, 1);
    match pool.schedule(prime_task(10, 10)) {
        Err(SchedulerError::Configuration) => {}
        other => panic!("expected a configuration error, got {:?}", other.map(|_| ())),
    }
}

#[test]
fn exhausted_pool_is_a_scheduling_error() {
    let mut pool: CpuPool<PrimeTask> =
        CpuPool::new(PoolMode::WorkStealing, DispatchPolicy::LoadAware, 1, 1);
    // A pool whose whole submission budget has already completed.
    pool.submitted = usize::MAX;
    pool.completed = usize::MAX;
    match pool.schedule(prime_task(10, 10)) {
        Err(SchedulerError::Scheduling) => {}
        other => panic!("expected a scheduling error, got {:?}", other.map(|_| ())),
    }
}

struct FailJob;

impl Step<usize> for FailJob {
    fn step_post(_pre: Self, _post: Self, _r: (TaskState, Option<usize>)) -> bool {
        true
    }

    fn step(&mut self) -> (TaskState, Option<usize>) {
        (TaskState::Error, None)
    }
}

#[test]
fn erring_task_closes_the_channel() {
    let mut pool: CpuPool<Task<FailJob, usize>> =
        CpuPool::new(PoolMode::WorkStealing, DispatchPolicy::LoadAware, 1, 1);
    let mut task = Task::new(FailJob);
    let waiter = task.waiter().unwrap();
    pool.schedule(task).unwrap();
    pool.run(2);
    match waiter.wait() {
        Err(SchedulerError::AwaitClosed) => {}
        Ok(_) => panic!("an erring task must not deliver a result"),
        Err(e) => panic!("unexpected error {:?}", e),
    }
    assert_eq!(1, pool.errored);
    assert_eq!(0, pool.completed);
}

struct StuckJob;

impl Step<usize> for StuckJob {
    fn step_post(_pre: Self, _post: Self, _r: (TaskState, Option<usize>)) -> bool {
        true
    }

    fn step(&mut self) -> (TaskState, Option<usize>) {
        (TaskState::Unstarted, None)
    }
}

#[test]
fn unstarted_after_tick_is_dropped() {
    let mut pool: CpuPool<Task<StuckJob, usize>> =
        CpuPool::new(PoolMode::WorkStealing, DispatchPolicy::LoadAware, 1, 1);
    let mut task = Task::new(StuckJob);
    let waiter = task.waiter().unwrap();
    pool.schedule(task).unwrap();
    pool.run(2);
    assert!(waiter.wait().is_err());
    assert_eq!(1, pool.dropped_unstarted);
}

#[test]
fn acknowledgement_drain_tracks_the_mailbox() {
    let mut pool: CpuPool<PrimeTask> =
        CpuPool::new(PoolMode::WorkStealing, DispatchPolicy::LoadAware, 1, 1);
    for _ in 0..3 {
        pool.schedule(prime_task(10, 10)).unwrap();
    }
    assert_eq!(3, pool.executors[0].count_tasks());
    pool.run_steps(0, 1);
    assert_eq!(2, pool.executors[0].count_tasks());
    pool.run_steps(0, 2);
    assert_eq!(0, pool.executors[0].count_tasks());
}

#[test]
fn pick_load_aware_takes_first_minimum() {
    assert_eq!(Some(1), scheduler::dispatcher::pick_load_aware(&vec![3, 1, 2, 1]));
    assert_eq!(Some(0), scheduler::dispatcher::pick_load_aware(&vec![0, 0, 0]));
    assert_eq!(None, scheduler::dispatcher::pick_load_aware(&Vec::new()));
}

#[test]
fn pick_steal_victim_takes_last_maximum() {
    assert_eq!(Some(2), scheduler::dispatcher::pick_steal_victim(&vec![0, 2, 2, 0]));
    assert_eq!(Some(3), scheduler::dispatcher::pick_steal_victim(&vec![1, 0, 0, 1]));
    assert_eq!(None, scheduler::dispatcher::pick_steal_victim(&vec![0, 0]));
    assert_eq!(None, scheduler::dispatcher::pick_steal_victim(&Vec::new()));
}
