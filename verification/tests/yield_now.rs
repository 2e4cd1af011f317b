use kernel::executor::{Executor, Step};
use kernel::task::{yield_now, Context, Poll, Resume, Task, TaskId, TaskIdSource, Waker};

#[test]
fn yielding_suspends_once_and_wakes_itself() {
    let mut computation = yield_now();
    let mut cx = Context::from_waker(Waker::new(TaskId(4)));
    assert_eq!(computation.poll(&mut cx), Poll::Pending);
    assert_eq!(cx.waker(), Waker::new(TaskId(4)));
    let mut woken = cx.into_woken();
    assert_eq!(woken.pop(), Some(4));
    assert_eq!(woken.pop(), None);

    let mut cx = Context::from_waker(Waker::new(TaskId(4)));
    assert_eq!(computation.poll(&mut cx), Poll::Ready);
    assert!(cx.into_woken().is_empty());
}

#[test]
fn a_task_that_yields_lets_the_others_run_first() {
    let mut ids = TaskIdSource::new();
    let mut executor = Executor::new();
    let a = Task::new(yield_now(), &mut ids);
    let b = Task::new(yield_now(), &mut ids);
    let (ia, ib) = (a.id(), b.id());
    executor.spawn(a);
    executor.spawn(b);
    assert_eq!(executor.step(), Step::Suspended(ia));
    assert_eq!(executor.step(), Step::Suspended(ib));
    assert_eq!(executor.step(), Step::Completed(ia));
    assert_eq!(executor.step(), Step::Completed(ib));
    assert_eq!(executor.step(), Step::Idle);
    assert_eq!(executor.task_count(), 0);
}

#[test]
fn resuming_a_yield_is_one_advance_of_it() {
    let mut computation = yield_now();
    let mut cx = Context::from_waker(Waker::new(TaskId(6)));
    assert_eq!(computation.resume(&mut cx), Poll::Pending);
    assert_eq!(computation.resume(&mut cx), Poll::Ready);
    let mut woken = cx.into_woken();
    assert_eq!(woken.pop(), Some(6));
    assert_eq!(woken.pop(), None);
}

#[test]
fn polling_a_task_advances_its_computation() {
    let mut ids = TaskIdSource::new();
    let mut task = Task::new(yield_now(), &mut ids);
    let mut cx = Context::from_waker(Waker::new(task.id()));
    assert_eq!(task.poll(&mut cx), Poll::Pending);
    assert_eq!(task.id(), TaskId(0));
    assert_eq!(task.poll(&mut cx), Poll::Ready);
    let mut woken = cx.into_woken();
    assert_eq!(woken.pop(), Some(0));
    assert_eq!(woken.pop(), None);
}
