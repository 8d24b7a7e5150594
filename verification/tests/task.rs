use scheduler::SchedulerError;
use scheduler::primes::PrimeJob;
use scheduler::task::{Iterable, Step, Task, TaskState};
use scheduler::waiter::WaitResult;

#[test]
fn double_waiter_rejection() {
    let mut task: Task<PrimeJob, usize> = Task::new(PrimeJob::new(10, 10));
    assert!(task.waiter().is_ok());
    match task.waiter() {
        Err(SchedulerError::DoubleWaiter) => {}
        Ok(_) => panic!("a second waiter must be rejected"),
        Err(e) => panic!("unexpected error {:?}", e),
    }
    // And a third attempt fails the same way.
    match task.waiter() {
        Err(SchedulerError::DoubleWaiter) => {}
        _ => panic!("every later waiter must be rejected"),
    }
}

#[test]
fn tick_drives_the_stepper() {
    let mut task: Task<PrimeJob, usize> = Task::new(PrimeJob::new(10, 4));
    assert_eq!(TaskState::Unstarted, task.get_state());
    assert!(task.get_result().is_none());
    task.tick();
    assert_eq!(TaskState::Incomplete, task.get_state());
    task.tick();
    task.tick();
    assert_eq!(TaskState::Complete, task.get_state());
    assert_eq!(Some(29), *task.get_result());
}

#[test]
fn exactly_once_delivery() {
    let mut task: Task<PrimeJob, usize> = Task::new(PrimeJob::new(10, 10));
    let waiter = task.waiter().unwrap();
    task.tick();
    assert_eq!(TaskState::Complete, task.get_state());
    task.complete();
    let first = waiter.wait();
    assert_eq!(29, *first.unwrap().get_result());
    match waiter.wait() {
        Err(SchedulerError::AwaitClosed) => {}
        Ok(_) => panic!("a waiter must deliver exactly one result"),
        Err(e) => panic!("unexpected error {:?}", e),
    }
}

#[test]
fn telemetry_is_consistent() {
    let mut task: Task<PrimeJob, usize> = Task::new(PrimeJob::new(1024, 100));
    let waiter = task.waiter().unwrap();
    loop {
        task.tick();
        match task.get_state() {
            TaskState::Complete => break,
            _ => {}
        }
    }
    task.complete();
    let result = waiter.wait().unwrap();
    assert_eq!(8161, *result.get_result());
    assert_eq!(11, result.get_ticks());
    assert_eq!(0, result.get_n_steals());
    assert!(result.get_cpu_time() <= result.get_total_time());
}

#[test]
fn mark_stolen_counts_moves() {
    let mut task: Task<PrimeJob, usize> = Task::new(PrimeJob::new(10, 10));
    let waiter = task.waiter().unwrap();
    task.mark_stolen();
    task.mark_stolen();
    task.tick();
    task.complete();
    assert_eq!(2, waiter.wait().unwrap().get_n_steals());
}

struct CountdownJob {
    remaining: usize,
}

impl Step<usize> for CountdownJob {
    fn step_post(_pre: Self, _post: Self, _r: (TaskState, Option<usize>)) -> bool {
        true
    }

    fn step(&mut self) -> (TaskState, Option<usize>) {
        if self.remaining == 0 {
            (TaskState::Complete, Some(7))
        } else {
            self.remaining -= 1;
            (TaskState::Incomplete, None)
        }
    }
}

#[test]
fn dropped_task_closes_the_channel() {
    let mut task: Task<CountdownJob, usize> = Task::new(CountdownJob { remaining: 3 });
    let waiter = task.waiter().unwrap();
    drop(task);
    match waiter.wait() {
        Err(SchedulerError::AwaitClosed) => {}
        _ => panic!("dropping the task must close the channel"),
    }
}

#[test]
fn wait_result_accessors() {
    let r: WaitResult<usize> = WaitResult::new(42, 5, 9, 3, 2);
    assert_eq!(42, *r.get_result());
    assert_eq!(5, r.get_cpu_time());
    assert_eq!(9, r.get_total_time());
    assert_eq!(3, r.get_ticks());
    assert_eq!(2, r.get_n_steals());
}
