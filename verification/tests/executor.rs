use kernel::executor::{run, spawn, Executor, IdleAction, Step};
use kernel::task::{Context, Poll, Resume, Task, TaskId, TaskIdSource, Waker};
use std::cell::RefCell;
use std::rc::Rc;

/// Counts its polls and finishes at the poll with the given number; before
/// that it wakes itself and suspends.
struct Countdown {
    polls: Rc<RefCell<u32>>,
    finish_at: u32,
}

impl Resume for Countdown {
    fn resume(&mut self, cx: &mut Context) -> Poll {
        *self.polls.borrow_mut() += 1;
        if *self.polls.borrow() >= self.finish_at {
            Poll::Ready
        } else {
            let waker = cx.waker();
            waker.wake_by_ref(cx.ready());
            Poll::Pending
        }
    }
}

/// Suspends without arranging a wakeup until it is told to finish.
struct Parked {
    polls: Rc<RefCell<u32>>,
}

impl Resume for Parked {
    fn resume(&mut self, _cx: &mut Context) -> Poll {
        *self.polls.borrow_mut() += 1;
        Poll::Pending
    }
}

fn countdown(finish_at: u32) -> (Countdown, Rc<RefCell<u32>>) {
    let polls = Rc::new(RefCell::new(0));
    (Countdown { polls: polls.clone(), finish_at }, polls)
}

#[test]
fn task_ids_count_up_from_zero() {
    let mut ids = TaskIdSource::new();
    assert_eq!(TaskId::new(&mut ids), TaskId(0));
    assert_eq!(TaskId::new(&mut ids), TaskId(1));
    assert_eq!(TaskId::new(&mut ids), TaskId(2));
    let (c, _) = countdown(1);
    let task = Task::new(c, &mut ids);
    assert_eq!(task.id(), TaskId(3));
}

#[test]
fn step_on_an_empty_queue_is_idle() {
    let mut executor: Executor<Countdown> = Executor::new();
    assert!(executor.is_idle());
    assert_eq!(executor.step(), Step::Idle);
    assert_eq!(executor.task_count(), 0);
    assert_eq!(executor.sleep_if_idle(), IdleAction::Halt);
}

#[test]
fn a_computation_that_completes_at_once_is_polled_once_and_leaves_the_table() {
    let mut ids = TaskIdSource::new();
    let mut executor = Executor::new();
    let (c, polls) = countdown(1);
    let task = Task::new(c, &mut ids);
    let id = task.id();
    executor.spawn(task);
    assert!(executor.contains(id));
    assert_eq!(executor.task_count(), 1);
    assert_eq!(executor.sleep_if_idle(), IdleAction::Continue);

    assert_eq!(executor.step(), Step::Completed(id));
    assert_eq!(*polls.borrow(), 1);
    assert!(!executor.contains(id));
    assert_eq!(executor.task_count(), 0);
    assert_eq!(executor.step(), Step::Idle);
    assert_eq!(*polls.borrow(), 1);
}

#[test]
fn waking_a_task_that_is_gone_is_skipped() {
    let mut ids = TaskIdSource::new();
    let mut executor = Executor::new();
    let (c, polls) = countdown(1);
    let task = Task::new(c, &mut ids);
    let id = task.id();
    executor.spawn(task);
    assert_eq!(executor.step(), Step::Completed(id));

    executor.wake(&Waker::new(id));
    executor.wake(&Waker::new(TaskId(77)));
    assert_eq!(executor.step(), Step::Skipped(id));
    assert_eq!(executor.step(), Step::Skipped(TaskId(77)));
    assert_eq!(executor.step(), Step::Idle);
    assert_eq!(*polls.borrow(), 1);
    assert_eq!(executor.task_count(), 0);
}

#[test]
fn a_double_wakeup_polls_a_finished_task_only_once() {
    let mut ids = TaskIdSource::new();
    let mut executor = Executor::new();
    let (c, polls) = countdown(1);
    let task = Task::new(c, &mut ids);
    let id = task.id();
    executor.spawn(task);
    executor.wake(&Waker::new(id));
    assert_eq!(executor.run_ready_tasks(10), 2);
    assert_eq!(*polls.borrow(), 1);
    assert_eq!(executor.task_count(), 0);
}

#[test]
fn a_suspended_task_returns_to_the_table_and_runs_again_when_woken() {
    let mut ids = TaskIdSource::new();
    let mut executor = Executor::new();
    let polls = Rc::new(RefCell::new(0));
    let task = Task::new(Parked { polls: polls.clone() }, &mut ids);
    let id = task.id();
    executor.spawn(task);
    assert_eq!(executor.step(), Step::Suspended(id));
    assert!(executor.contains(id));
    assert_eq!(executor.step(), Step::Idle);
    assert_eq!(*polls.borrow(), 1);

    executor.wake(&Waker::new(id));
    assert_eq!(executor.step(), Step::Suspended(id));
    assert_eq!(*polls.borrow(), 2);
    assert!(executor.contains(id));
}

#[test]
fn ready_tasks_run_in_queue_order() {
    let mut ids = TaskIdSource::new();
    let mut executor = Executor::new();
    let (a, _) = countdown(1);
    let (b, _) = countdown(1);
    let a = Task::new(a, &mut ids);
    let b = Task::new(b, &mut ids);
    let (ia, ib) = (a.id(), b.id());
    spawn(&mut executor, a);
    spawn(&mut executor, b);
    assert_eq!(executor.step(), Step::Completed(ia));
    assert_eq!(executor.step(), Step::Completed(ib));
}

#[test]
fn a_pass_stops_at_its_limit() {
    let mut ids = TaskIdSource::new();
    let mut executor = Executor::new();
    let (c, polls) = countdown(5);
    executor.spawn(Task::new(c, &mut ids));
    assert_eq!(executor.run_ready_tasks(0), 0);
    assert_eq!(*polls.borrow(), 0);
    assert_eq!(executor.run_ready_tasks(3), 3);
    assert_eq!(*polls.borrow(), 3);
    assert_eq!(executor.task_count(), 1);
    assert!(!executor.is_idle());
    assert_eq!(executor.run_ready_tasks(100), 2);
    assert_eq!(*polls.borrow(), 5);
    assert_eq!(executor.task_count(), 0);
    assert!(executor.is_idle());
}

#[test]
fn a_round_says_whether_to_halt() {
    let mut ids = TaskIdSource::new();
    let mut executor = Executor::new();
    let (c, polls) = countdown(4);
    executor.spawn(Task::new(c, &mut ids));
    assert_eq!(run(&mut executor, 2), IdleAction::Continue);
    assert_eq!(*polls.borrow(), 2);
    assert_eq!(run(&mut executor, 10), IdleAction::Halt);
    assert_eq!(*polls.borrow(), 4);
    assert_eq!(run(&mut executor, 10), IdleAction::Halt);
}

#[test]
fn a_waker_queues_the_identifier_of_its_task() {
    let mut ready = kernel::ready_queue::ReadyQueue::new();
    let waker = Waker::new(TaskId(9));
    waker.wake_by_ref(&mut ready);
    waker.wake_task(&mut ready);
    waker.wake(&mut ready);
    assert_eq!(ready.pop(), Some(9));
    assert_eq!(ready.pop(), Some(9));
    assert_eq!(ready.pop(), Some(9));
    assert_eq!(ready.pop(), None);
}

#[test]
fn appending_moves_everything_in_order() {
    let mut a = kernel::ready_queue::ReadyQueue::new();
    let mut b = kernel::ready_queue::ReadyQueue::new();
    a.push(1);
    b.push(2);
    b.push(3);
    a.append(&mut b);
    assert!(b.is_empty());
    assert_eq!(a.pop(), Some(1));
    assert_eq!(a.pop(), Some(2));
    assert_eq!(a.pop(), Some(3));
    assert_eq!(a.pop(), None);
}

/// Three kinds of computation in one type, each counting its polls.
enum Mixed {
    /// Wakes itself and finishes at once.
    WakesItselfAndFinishes(Rc<RefCell<u32>>),
    /// Gives way once, then finishes.
    Yields { before: Rc<RefCell<u32>>, after: Rc<RefCell<u32>>, yielded: bool },
    /// Suspends every time, waking nobody.
    Waits(Rc<RefCell<u32>>),
}

impl Resume for Mixed {
    fn resume(&mut self, cx: &mut Context) -> Poll {
        match self {
            Mixed::WakesItselfAndFinishes(polls) => {
                let waker = cx.waker();
                waker.wake_by_ref(cx.ready());
                *polls.borrow_mut() += 1;
                Poll::Ready
            }
            Mixed::Yields { before, after, yielded } => {
                if *yielded {
                    *after.borrow_mut() += 1;
                    Poll::Ready
                } else {
                    *before.borrow_mut() += 1;
                    *yielded = true;
                    let waker = cx.waker();
                    waker.wake_by_ref(cx.ready());
                    Poll::Pending
                }
            }
            Mixed::Waits(polls) => {
                *polls.borrow_mut() += 1;
                Poll::Pending
            }
        }
    }
}

fn counter() -> Rc<RefCell<u32>> {
    Rc::new(RefCell::new(0))
}

#[test]
fn a_stale_wakeup_is_skipped_and_the_yielding_task_still_finishes() {
    let (a, b, c) = (counter(), counter(), counter());
    let mut ids = TaskIdSource::new();
    let mut executor = Executor::new();
    executor.spawn(Task::new(Mixed::WakesItselfAndFinishes(a.clone()), &mut ids));
    executor.spawn(Task::new(
        Mixed::Yields { before: b.clone(), after: c.clone(), yielded: false },
        &mut ids,
    ));
    // two first polls, the stale wakeup of the first task, the second poll of the second
    assert_eq!(executor.run_ready_tasks(usize::MAX), 4);
    assert_eq!((*a.borrow(), *b.borrow(), *c.borrow()), (1, 1, 1));
    assert_eq!(executor.task_count(), 0);
    assert!(executor.is_idle());
}

#[test]
fn a_task_is_polled_once_for_each_time_its_identifier_is_queued() {
    let polls = counter();
    let mut ids = TaskIdSource::new();
    let mut executor = Executor::new();
    let task = Task::new(Mixed::Waits(polls.clone()), &mut ids);
    let id = task.id();
    executor.spawn(task);
    executor.wake(&Waker::new(id));
    executor.wake(&Waker::new(id));
    assert_eq!(executor.run_ready_tasks(usize::MAX), 3);
    assert_eq!(*polls.borrow(), 3);
    assert!(executor.contains(id));
    assert!(executor.is_idle());
    assert_eq!(executor.run_ready_tasks(usize::MAX), 0);
    assert_eq!(*polls.borrow(), 3);
}

#[test]
fn wakeups_after_a_task_finished_poll_nothing() {
    let polls = counter();
    let mut ids = TaskIdSource::new();
    let mut executor = Executor::new();
    let task = Task::new(Mixed::WakesItselfAndFinishes(polls.clone()), &mut ids);
    let id = task.id();
    executor.spawn(task);
    executor.wake(&Waker::new(id));
    executor.wake(&Waker::new(id));
    // one poll, then three stale identifiers: two from outside, one from the task itself
    assert_eq!(executor.run_ready_tasks(usize::MAX), 4);
    assert_eq!(*polls.borrow(), 1);
    assert_eq!(executor.task_count(), 0);
}

#[test]
fn tasks_that_are_not_queued_are_neither_polled_nor_removed() {
    let (waiting, other) = (counter(), counter());
    let mut ids = TaskIdSource::new();
    let mut executor = Executor::new();
    let sleeper = Task::new(Mixed::Waits(waiting.clone()), &mut ids);
    let sleeper_id = sleeper.id();
    executor.spawn(sleeper);
    assert_eq!(executor.run_ready_tasks(usize::MAX), 1);
    assert_eq!(*waiting.borrow(), 1);

    executor.spawn(Task::new(Mixed::WakesItselfAndFinishes(other.clone()), &mut ids));
    assert_eq!(executor.run_ready_tasks(usize::MAX), 2);
    assert_eq!(*other.borrow(), 1);
    assert_eq!(*waiting.borrow(), 1);
    assert!(executor.contains(sleeper_id));
    assert_eq!(executor.task_count(), 1);

    executor.wake(&Waker::new(sleeper_id));
    assert_eq!(executor.run_ready_tasks(usize::MAX), 1);
    assert_eq!(*waiting.borrow(), 2);
    assert!(executor.contains(sleeper_id));
}
