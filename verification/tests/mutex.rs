use kernel::mutex::{IntMutex, Interrupts, Mutex};
use kernel::ready_queue::ReadyQueue;
use kernel::task::{Poll, TaskId, Waker};

#[test]
fn try_lock_succeeds_on_a_free_lock_and_fails_on_a_held_one() {
    let mut mutex = Mutex::new(7u32);
    let mut ready = ReadyQueue::new();
    assert!(!mutex.locked());
    let guard = mutex.try_lock();
    assert!(guard.is_some());
    assert!(mutex.locked());
    assert!(mutex.try_lock().is_none());
    assert!(mutex.locked());
    mutex.unlock(guard.unwrap(), &mut ready);
    assert!(!mutex.locked());
    assert!(ready.is_empty());
    assert!(mutex.try_lock().is_some());
}

#[test]
fn the_guard_gives_access_to_the_payload() {
    let mut mutex = Mutex::new(1u32);
    let mut ready = ReadyQueue::new();
    let mut guard = mutex.try_lock().unwrap();
    assert_eq!(*guard.deref(&mutex), 1);
    *guard.deref_mut(&mut mutex) = 2;
    assert_eq!(*guard.deref(&mutex), 2);
    mutex.unlock(guard, &mut ready);
    assert_eq!(*mutex.get_mut(), 2);
    *mutex.get_mut() = 3;
    let guard = mutex.spin_lock();
    assert_eq!(*guard.deref(&mutex), 3);
}

#[test]
fn a_failed_waiting_acquire_registers_and_release_wakes_one_waiter() {
    let mut mutex = Mutex::new(());
    let mut ready = ReadyQueue::new();
    let holder = mutex.spin_lock();

    let mut first = mutex.locker();
    let mut second = mutex.locker();
    assert!(mutex.lock(&mut first, Waker::new(TaskId(1))).is_none());
    assert!(mutex.lock(&mut second, Waker::new(TaskId(2))).is_none());
    // polled again before being woken: still one registration each
    assert!(mutex.lock(&mut first, Waker::new(TaskId(1))).is_none());
    assert!(ready.is_empty());

    mutex.unlock(holder, &mut ready);
    assert_eq!(ready.pop(), Some(1));
    assert_eq!(ready.pop(), None);

    // the woken party retries and wins; the other stays registered
    let guard = mutex.lock(&mut first, Waker::new(TaskId(1)));
    assert!(guard.is_some());
    mutex.unlock(guard.unwrap(), &mut ready);
    assert_eq!(ready.pop(), Some(2));
    assert_eq!(ready.pop(), None);

    let guard = mutex.lock(&mut second, Waker::new(TaskId(2))).unwrap();
    mutex.unlock(guard, &mut ready);
    assert!(ready.is_empty());
}

#[test]
fn a_woken_party_that_lost_the_race_registers_again() {
    let mut mutex = Mutex::new(());
    let mut ready = ReadyQueue::new();
    let holder = mutex.spin_lock();
    let mut waiter = mutex.locker();
    assert!(mutex.lock(&mut waiter, Waker::new(TaskId(1))).is_none());
    mutex.unlock(holder, &mut ready);
    assert_eq!(ready.pop(), Some(1));
    // somebody else is faster
    let thief = mutex.try_lock().unwrap();
    assert!(mutex.lock(&mut waiter, Waker::new(TaskId(1))).is_none());
    mutex.unlock(thief, &mut ready);
    assert_eq!(ready.pop(), Some(1));
    assert!(mutex.lock(&mut waiter, Waker::new(TaskId(1))).is_some());
}

#[test]
fn the_locker_reports_whether_the_lock_is_free() {
    let mut mutex = Mutex::new(());
    let mut ready = ReadyQueue::new();
    let mut locker = mutex.locker();
    assert_eq!(locker.poll(&mut mutex, Waker::new(TaskId(3))), Poll::Ready);
    let guard = mutex.try_lock().unwrap();
    assert_eq!(locker.poll(&mut mutex, Waker::new(TaskId(3))), Poll::Pending);
    locker.cancel(&mut mutex);
    mutex.unlock(guard, &mut ready);
    assert!(ready.is_empty());
}

#[test]
fn force_unlock_frees_the_lock_and_wakes_nobody() {
    let mut mutex = Mutex::new(());
    let mut ready = ReadyQueue::new();
    let _guard = mutex.spin_lock();
    let mut waiter = mutex.locker();
    assert!(mutex.lock(&mut waiter, Waker::new(TaskId(1))).is_none());
    mutex.force_unlock();
    assert!(!mutex.locked());
    assert!(ready.is_empty());
    assert!(mutex.try_lock().is_some());
}

#[test]
fn an_interrupt_mutex_disables_interrupts_while_held_and_restores_them() {
    let mut mutex = IntMutex::new(5u8);
    let mut ready = ReadyQueue::new();
    let mut interrupts = Interrupts::new(true);

    let mut guard = mutex.try_lock(&mut interrupts).unwrap();
    assert!(!interrupts.are_enabled());
    assert!(mutex.locked());
    assert_eq!(*guard.deref(&mutex), 5);
    *guard.deref_mut(&mut mutex) = 6;

    // a second attempt fails and leaves interrupts as they are
    assert!(mutex.try_lock(&mut interrupts).is_none());
    assert!(!interrupts.are_enabled());

    mutex.unlock(guard, &mut ready, &mut interrupts);
    assert!(interrupts.are_enabled());
    assert!(!mutex.locked());
    assert_eq!(*mutex.get_mut(), 6);
}

#[test]
fn an_interrupt_mutex_leaves_disabled_interrupts_disabled() {
    let mut mutex = IntMutex::new(());
    let mut ready = ReadyQueue::new();
    let mut interrupts = Interrupts::new(false);
    let guard = mutex.spin_lock(&mut interrupts);
    assert!(!interrupts.are_enabled());
    mutex.unlock(guard, &mut ready, &mut interrupts);
    assert!(!interrupts.are_enabled());
}

#[test]
fn a_failed_try_lock_puts_enabled_interrupts_back() {
    let mut mutex = IntMutex::new(());
    let mut held_with = Interrupts::new(false);
    let _guard = mutex.spin_lock(&mut held_with);
    let mut interrupts = Interrupts::new(true);
    assert!(mutex.try_lock(&mut interrupts).is_none());
    assert!(interrupts.are_enabled());
}

#[test]
fn waiting_for_an_interrupt_mutex() {
    let mut mutex = IntMutex::new(());
    let mut ready = ReadyQueue::new();
    let mut interrupts = Interrupts::new(true);
    let holder = mutex.spin_lock(&mut interrupts);
    interrupts.enable();
    let mut waiter = mutex.locker();
    assert!(mutex.lock(&mut waiter, Waker::new(TaskId(8)), &mut interrupts).is_none());
    assert!(interrupts.are_enabled());
    mutex.unlock(holder, &mut ready, &mut interrupts);
    assert_eq!(ready.pop(), Some(8));
    let guard = mutex.lock(&mut waiter, Waker::new(TaskId(8)), &mut interrupts);
    assert!(guard.is_some());
    assert!(!interrupts.are_enabled());
    mutex.force_unlock();
    assert!(!mutex.locked());
    assert!(!interrupts.are_enabled());
}

#[test]
fn the_interrupt_flag_can_be_set_and_cleared() {
    let mut interrupts = Interrupts::new(false);
    interrupts.enable();
    assert!(interrupts.are_enabled());
    interrupts.disable();
    assert!(!interrupts.are_enabled());
}
