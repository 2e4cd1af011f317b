use kernel::mutex::{IntMutex, Interrupts};
use kernel::ready_queue::ReadyQueue;
use kernel::sleep::{
    clock_tick, register_sleep, sleep, ticks_to_sleep, wake_sleep, MonotonicTime, SleepFuture,
    SleepRegistry, TIMER_FREQ,
};
use kernel::task::{Context, Poll, TaskId, Waker};

fn drain(ready: &mut ReadyQueue) -> Vec<u64> {
    let mut out = Vec::new();
    while let Some(id) = ready.pop() {
        out.push(id);
    }
    out
}

#[test]
fn the_timer_runs_at_8192_ticks_per_second() {
    assert_eq!(TIMER_FREQ, 8192);
}

#[test]
fn the_tick_counter_starts_at_zero_and_counts_up() {
    let mut time = MonotonicTime::new();
    assert_eq!(time.now(), 0);
    assert_eq!(time.advance(), 1);
    assert_eq!(time.advance(), 2);
    assert_eq!(time.now(), 2);
}

#[test]
fn a_duration_is_whole_ticks_less_one() {
    assert_eq!(ticks_to_sleep(1, 0), 8191);
    assert_eq!(ticks_to_sleep(2, 500_000_000), 2 * 8192 + 4096 - 1);
    assert_eq!(ticks_to_sleep(0, 500_000_000), 4095);
    // 50 ms: 409.6 ticks, truncated to 409, less one
    assert_eq!(ticks_to_sleep(0, 50_000_000), 408);
    // just over two ticks
    assert_eq!(ticks_to_sleep(0, 244_141), 1);
    // just over one tick
    assert_eq!(ticks_to_sleep(0, 122_071), 0);
}

#[test]
fn a_duration_under_one_tick_sleeps_no_tick() {
    assert_eq!(ticks_to_sleep(0, 0), 0);
    assert_eq!(ticks_to_sleep(0, 1), 0);
    assert_eq!(ticks_to_sleep(0, 122_070), 0);
}

#[test]
fn a_duration_beyond_the_counter_is_cut_to_its_range() {
    assert_eq!(ticks_to_sleep(u64::MAX, 999_999_999), u64::MAX - 1);
    assert_eq!(ticks_to_sleep(u64::MAX / 8192 + 1, 0), u64::MAX - 1);
    assert_eq!(ticks_to_sleep(u64::MAX / 8192, 0), (u64::MAX / 8192) * 8192 - 1);
}

#[test]
fn a_sleep_is_pending_until_its_end_tick_and_registers_once() {
    let mut time = MonotonicTime::new();
    let mut service = IntMutex::new(SleepRegistry::new());
    let mut interrupts = Interrupts::new(true);
    let mut ready = ReadyQueue::new();
    time.advance();
    time.advance();
    // three ticks and a bit: waits for two ticks, until tick 4
    let mut sleeping = sleep(0, 3 * 122_071, &time);

    let mut cx = Context::from_waker(Waker::new(TaskId(7)));
    assert_eq!(sleeping.poll(&time, &mut service, &mut cx, &mut interrupts), Poll::Pending);
    assert_eq!(service.get_mut().len(), 1);
    assert!(interrupts.are_enabled());
    assert!(!service.locked());
    assert_eq!(sleeping.poll(&time, &mut service, &mut cx, &mut interrupts), Poll::Pending);
    assert_eq!(service.get_mut().len(), 1);
    assert!(cx.into_woken().is_empty());

    clock_tick(&mut time, &mut service, &mut ready, &mut interrupts);
    assert_eq!(time.now(), 3);
    assert!(ready.is_empty());
    let mut cx = Context::from_waker(Waker::new(TaskId(7)));
    assert_eq!(sleeping.poll(&time, &mut service, &mut cx, &mut interrupts), Poll::Pending);

    clock_tick(&mut time, &mut service, &mut ready, &mut interrupts);
    assert_eq!(time.now(), 4);
    assert_eq!(drain(&mut ready), vec![7]);
    assert_eq!(service.get_mut().len(), 0);
    assert_eq!(sleeping.poll(&time, &mut service, &mut cx, &mut interrupts), Poll::Ready);
    // and it stays over
    time.advance();
    assert_eq!(sleeping.poll(&time, &mut service, &mut cx, &mut interrupts), Poll::Ready);
    assert_eq!(service.get_mut().len(), 0);
}

#[test]
fn a_sleep_that_is_due_at_once_never_registers() {
    let time = MonotonicTime::new();
    let mut service = IntMutex::new(SleepRegistry::new());
    let mut interrupts = Interrupts::new(false);
    let mut sleeping = SleepFuture::new(0, 0, &time);
    let mut cx = Context::from_waker(Waker::new(TaskId(1)));
    assert_eq!(sleeping.poll(&time, &mut service, &mut cx, &mut interrupts), Poll::Ready);
    assert_eq!(service.get_mut().len(), 0);
}

#[test]
fn wake_sleep_wakes_everything_due_and_nothing_else() {
    let mut service = IntMutex::new(SleepRegistry::new());
    let mut interrupts = Interrupts::new(false);
    let mut ready = ReadyQueue::new();
    register_sleep(&mut service, 10, Waker::new(TaskId(1)), &mut ready, &mut interrupts);
    register_sleep(&mut service, 5, Waker::new(TaskId(2)), &mut ready, &mut interrupts);
    register_sleep(&mut service, 10, Waker::new(TaskId(3)), &mut ready, &mut interrupts);
    register_sleep(&mut service, 20, Waker::new(TaskId(4)), &mut ready, &mut interrupts);
    register_sleep(&mut service, 11, Waker::new(TaskId(5)), &mut ready, &mut interrupts);
    assert_eq!(service.get_mut().len(), 4);
    assert!(ready.is_empty());

    // nothing is due before the earliest tick
    wake_sleep(&mut service, 4, &mut ready, &mut interrupts);
    assert!(ready.is_empty());
    assert_eq!(service.get_mut().len(), 4);

    // ticks 10 and 5 are due at 10: the later tick first, each in order of registration
    wake_sleep(&mut service, 10, &mut ready, &mut interrupts);
    assert_eq!(drain(&mut ready), vec![1, 3, 2]);
    assert_eq!(service.get_mut().len(), 2);

    wake_sleep(&mut service, 10, &mut ready, &mut interrupts);
    assert!(ready.is_empty());

    wake_sleep(&mut service, u64::MAX, &mut ready, &mut interrupts);
    assert_eq!(drain(&mut ready), vec![4, 5]);
    assert_eq!(service.get_mut().len(), 0);
    assert!(!interrupts.are_enabled());
}

#[test]
fn more_than_five_sleepers_can_share_a_tick() {
    let mut service = IntMutex::new(SleepRegistry::new());
    let mut interrupts = Interrupts::new(true);
    let mut ready = ReadyQueue::new();
    for id in 0..8 {
        register_sleep(&mut service, 3, Waker::new(TaskId(id)), &mut ready, &mut interrupts);
    }
    assert_eq!(service.get_mut().len(), 1);
    wake_sleep(&mut service, 3, &mut ready, &mut interrupts);
    assert_eq!(drain(&mut ready), vec![0, 1, 2, 3, 4, 5, 6, 7]);
    assert!(interrupts.are_enabled());
}

#[test]
fn a_registry_locked_by_a_task_is_found_locked_by_the_interrupt_handler() {
    let mut service = IntMutex::new(SleepRegistry::new());
    let mut interrupts = Interrupts::new(true);
    let mut ready = ReadyQueue::new();
    register_sleep(&mut service, 1, Waker::new(TaskId(1)), &mut ready, &mut interrupts);
    assert!(!service.locked());

    // a task takes the registry's lock ...
    let mut task_side = Interrupts::new(true);
    let guard = service.try_lock(&mut task_side).unwrap();
    // ... and the interrupt arrives all the same: the handler finds the lock
    // held, which is where it gives up for good instead of waiting
    assert!(service.locked());
    let mut handler_side = Interrupts::new(false);
    assert!(service.try_lock(&mut handler_side).is_none());
    assert!(!handler_side.are_enabled());
    assert!(ready.is_empty());
    assert_eq!(guard.deref(&service).len(), 1);

    service.unlock(guard, &mut ready, &mut task_side);
    assert!(task_side.are_enabled());
    assert!(!service.locked());
    wake_sleep(&mut service, 1, &mut ready, &mut handler_side);
    assert_eq!(drain(&mut ready), vec![1]);
}

#[test]
fn releasing_the_registry_wakes_a_party_waiting_for_its_lock() {
    let mut service = IntMutex::new(SleepRegistry::new());
    let mut interrupts = Interrupts::new(false);
    let mut ready = ReadyQueue::new();
    register_sleep(&mut service, 2, Waker::new(TaskId(1)), &mut ready, &mut interrupts);
    let guard = service.spin_lock(&mut interrupts);
    let mut waiter = service.locker();
    assert!(service.lock(&mut waiter, Waker::new(TaskId(9)), &mut interrupts).is_none());
    service.force_unlock();
    let _ = guard;
    // the sleeper first, then the party that waited for the lock
    wake_sleep(&mut service, 2, &mut ready, &mut interrupts);
    assert_eq!(drain(&mut ready), vec![1, 9]);
}
