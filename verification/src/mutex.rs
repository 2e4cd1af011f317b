//! Mutual exclusion for tasks: a lock that a task can try, wait for, or
//! busy-wait for, and the parties waiting for it.

use crate::ready_queue::ReadyQueue;
use crate::task::{Poll, Waker};
use crate::waker_list::{
    after_notify, chosen, lemma_notification_wakes_a_waiter, notified, WakerList, WakerListHandle,
};
use vstd::prelude::*;

verus! {

/// A lock around a payload of type `T`.
pub struct Mutex<T> {
    locked: bool,
    wakeup_list: WakerList,
    guards: Ghost<nat>,
    inner: T,
}

/// The proof of having acquired a [`Mutex`]. It is handed back to the mutex
/// to release it.
#[derive(Debug)]
pub struct MutexGuard {
    token: (),
}

/// One party's attempt to acquire a [`Mutex`], across suspensions.
pub struct MutexLocker {
    wake_handle: WakerListHandle,
}

impl MutexLocker {
    /// The number under which this party registers with the mutex.
    pub closed spec fn index(&self) -> u64 {
        self.wake_handle.index()
    }

    /// One look at the lock: reports `Ready` if it is free. If it is held,
    /// leaves `waker` with the mutex, in place of any handle this party left
    /// earlier, and reports `Pending`.
    pub fn poll<T>(&mut self, mutex: &mut Mutex<T>, waker: Waker) -> (poll: Poll)
        requires
            old(mutex).wf(),
        ensures
            final(mutex).wf(),
            final(self).index() == old(self).index(),
            final(mutex).is_locked() == old(mutex).is_locked(),
            final(mutex).live_guards() == old(mutex).live_guards(),
            final(mutex).payload() == old(mutex).payload(),
            final(mutex).next_handle() == old(mutex).next_handle(),
            old(mutex).is_locked() ==> poll == Poll::Pending && final(mutex).waiting() == old(
                mutex,
            ).waiting().insert(old(self).index(), waker),
            !old(mutex).is_locked() ==> poll == Poll::Ready && final(mutex).waiting() == old(
                mutex,
            ).waiting(),
    {
        if mutex.locked {
            self.wake_handle.register(&mut mutex.wakeup_list, waker);
            Poll::Pending
        } else {
            Poll::Ready
        }
    }

    /// Gives the attempt up: what this party left with the mutex is
    /// withdrawn.
    pub fn cancel<T>(self, mutex: &mut Mutex<T>)
        requires
            old(mutex).wf(),
        ensures
            final(mutex).wf(),
            final(mutex).is_locked() == old(mutex).is_locked(),
            final(mutex).live_guards() == old(mutex).live_guards(),
            final(mutex).payload() == old(mutex).payload(),
            final(mutex).next_handle() == old(mutex).next_handle(),
            final(mutex).waiting() == old(mutex).waiting().remove(self.index()),
    {
        self.wake_handle.release(&mut mutex.wakeup_list);
    }
}

impl<T> Mutex<T> {
    /// Whether the lock is held.
    pub closed spec fn is_locked(&self) -> bool {
        self.locked
    }

    /// The number of guards that were handed out and not yet handed back.
    pub closed spec fn live_guards(&self) -> nat {
        self.guards@
    }

    /// The payload.
    pub closed spec fn payload(&self) -> T {
        self.inner
    }

    /// The handles left by the parties that wait for the lock, by the number
    /// they registered under.
    pub closed spec fn waiting(&self) -> Map<u64, Waker> {
        self.wakeup_list.registered()
    }

    /// The number under which the next party will register.
    pub closed spec fn next_handle(&self) -> u64 {
        self.wakeup_list.next_handle()
    }

    /// A guard is live exactly while the lock is held, and never more than
    /// one; and finitely many parties wait.
    pub open spec fn wf(&self) -> bool {
        &&& self.live_guards() == if self.is_locked() {
            1nat
        } else {
            0nat
        }
        &&& self.waiting().dom().finite()
    }

    /// A free lock around `inner`, with nobody waiting.
    pub fn new(inner: T) -> (mutex: Self)
        ensures
            mutex.wf(),
            !mutex.is_locked(),
            mutex.payload() == inner,
            mutex.waiting() == Map::<u64, Waker>::empty(),
            mutex.next_handle() == 0,
    {
        Mutex { locked: false, wakeup_list: WakerList::new(), guards: Ghost(0), inner }
    }

    /// Whether the lock is held.
    pub fn locked(&self) -> (b: bool)
        ensures
            b == self.is_locked(),
    {
        self.locked
    }

    /// Takes the lock if it is free and does nothing otherwise. It never
    /// waits.
    pub fn try_lock(&mut self) -> (guard: Option<MutexGuard>)
        requires
            old(self).wf(),
        ensures
            final(self).wf(),
            guard.is_some() <==> !old(self).is_locked(),
            final(self).is_locked(),
            guard.is_none() ==> final(self).live_guards() == old(self).live_guards(),
            guard.is_some() ==> final(self).live_guards() == old(self).live_guards() + 1,
            final(self).payload() == old(self).payload(),
            final(self).waiting() == old(self).waiting(),
            final(self).next_handle() == old(self).next_handle(),
    {
        if self.locked {
            return None;
        }
        self.locked = true;
        proof {
            self.guards@ = self.guards@ + 1;
        }
        Some(MutexGuard { token: () })
    }

    /// Starts an attempt to acquire the lock by waiting: issues the number
    /// under which the party will register.
    pub fn locker(&mut self) -> (locker: MutexLocker)
        requires
            old(self).wf(),
        ensures
            final(self).wf(),
            locker.index() == old(self).next_handle(),
            final(self).is_locked() == old(self).is_locked(),
            final(self).live_guards() == old(self).live_guards(),
            final(self).payload() == old(self).payload(),
            final(self).waiting() == old(self).waiting(),
            old(self).next_handle() < u64::MAX ==> final(self).next_handle() == old(
                self,
            ).next_handle() + 1,
            old(self).next_handle() == u64::MAX ==> final(self).next_handle() == 0,
    {
        MutexLocker { wake_handle: self.wakeup_list.handle() }
    }

    /// One advance of the waiting acquire. If the lock is free it is taken,
    /// and what this party left with the mutex is withdrawn. If it is held,
    /// `waker` is left with the mutex and the party is to suspend; once woken
    /// it tries again, since another party may have been faster.
    pub fn lock(&mut self, locker: &mut MutexLocker, waker: Waker) -> (guard: Option<MutexGuard>)
        requires
            old(self).wf(),
        ensures
            final(self).wf(),
            final(locker).index() == old(locker).index(),
            guard.is_some() <==> !old(self).is_locked(),
            final(self).is_locked(),
            final(self).payload() == old(self).payload(),
            final(self).next_handle() == old(self).next_handle(),
            guard.is_none() ==> final(self).live_guards() == old(self).live_guards()
                && final(self).waiting() == old(self).waiting().insert(old(locker).index(), waker),
            guard.is_some() ==> final(self).live_guards() == old(self).live_guards() + 1
                && final(self).waiting() == old(self).waiting().remove(old(locker).index()),
    {
        match self.try_lock() {
            Some(guard) => {
                self.wakeup_list.unregister(&locker.wake_handle);
                Some(guard)
            },
            None => {
                locker.wake_handle.register(&mut self.wakeup_list, waker);
                None
            },
        }
    }

    /// Takes a lock that is free without suspending. On a lock that is held
    /// this would wait until it is released, which nothing that waits here
    /// could bring about; the caller makes sure that it is free.
    pub fn spin_lock(&mut self) -> (guard: MutexGuard)
        requires
            old(self).wf(),
            !old(self).is_locked(),
        ensures
            final(self).wf(),
            final(self).is_locked(),
            final(self).live_guards() == 1,
            final(self).payload() == old(self).payload(),
            final(self).waiting() == old(self).waiting(),
            final(self).next_handle() == old(self).next_handle(),
    {
        match self.try_lock() {
            Some(guard) => guard,
            None => vstd::pervasive::unreached(),
        }
    }

    /// Releases the lock: the flag is cleared first, then one waiting party,
    /// if there is any, is removed from the waiting list and woken.
    pub fn unlock(&mut self, guard: MutexGuard, ready: &mut ReadyQueue)
        requires
            old(self).wf(),
            old(self).is_locked(),
        ensures
            final(self).wf(),
            !final(self).is_locked(),
            final(self).live_guards() == 0,
            final(self).payload() == old(self).payload(),
            final(self).next_handle() == old(self).next_handle(),
            final(self).waiting() == after_notify(old(self).waiting()),
            final(ready)@ == old(ready)@ + notified(old(self).waiting()),
    {
        self.locked = false;
        proof {
            self.guards@ = 0;
        }
        self.wakeup_list.notify_one(ready);
    }

    /// Clears the flag without a guard and without waking anybody. A guard
    /// that is still out is void from then on.
    pub fn force_unlock(&mut self)
        ensures
            final(self).wf(),
            !final(self).is_locked(),
            final(self).payload() == old(self).payload(),
            final(self).waiting() == old(self).waiting(),
            final(self).next_handle() == old(self).next_handle(),
    {
        self.locked = false;
        proof {
            self.guards@ = 0;
            self.wakeup_list.lemma_registered_is_finite();
        }
    }

    /// The payload, for whoever owns the mutex outright.
    pub fn get_mut(&mut self) -> (payload: &mut T)
        ensures
            *payload == old(self).payload(),
            final(self).payload() == *final(payload),
            final(self).is_locked() == old(self).is_locked(),
            final(self).live_guards() == old(self).live_guards(),
            final(self).waiting() == old(self).waiting(),
            final(self).next_handle() == old(self).next_handle(),
    {
        &mut self.inner
    }
}

impl MutexGuard {
    /// The payload of the mutex that this guard holds. The mutex is held:
    /// that is what the guard stands for.
    pub fn deref<'a, T>(&self, mutex: &'a Mutex<T>) -> (payload: &'a T)
        requires
            mutex.is_locked(),
        ensures
            *payload == mutex.payload(),
    {
        &mutex.inner
    }

    /// The payload of the mutex that this guard holds, to change it.
    pub fn deref_mut<'a, T>(&mut self, mutex: &'a mut Mutex<T>) -> (payload: &'a mut T)
        requires
            old(mutex).is_locked(),
        ensures
            *payload == old(mutex).payload(),
            final(mutex).payload() == *final(payload),
            final(mutex).is_locked() == old(mutex).is_locked(),
            final(mutex).live_guards() == old(mutex).live_guards(),
            final(mutex).waiting() == old(mutex).waiting(),
            final(mutex).next_handle() == old(mutex).next_handle(),
    {
        &mut mutex.inner
    }
}

/// Whatever was done with a mutex, at most one guard is live, and one is
/// live exactly while the lock is held.
pub proof fn lemma_at_most_one_guard<T>(mutex: Mutex<T>)
    requires
        mutex.wf(),
    ensures
        mutex.live_guards() <= 1,
        mutex.live_guards() == 1 <==> mutex.is_locked(),
{
}

/// No wakeup is lost at a release: when the lock is released while a party
/// is registered with it, the release wakes one of the registered parties,
/// the one with the least handle number, removes it from those waiting and
/// leaves the lock free for it to take. `released` and `ready_after` stand
/// for the mutex and the ready queue as [`Mutex::unlock`] leaves them.
pub proof fn lemma_release_wakes_a_waiter<T>(
    held: Mutex<T>,
    released: Mutex<T>,
    ready_before: Seq<u64>,
    ready_after: Seq<u64>,
    k: u64,
)
    requires
        held.wf(),
        held.waiting().contains_key(k),
        !released.is_locked(),
        released.waiting() == after_notify(held.waiting()),
        ready_after == ready_before + notified(held.waiting()),
    ensures
        held.waiting().contains_key(chosen(held.waiting())),
        ready_after == ready_before.push(held.waiting()[chosen(held.waiting())].target().0),
        released.waiting() == held.waiting().remove(chosen(held.waiting())),
        released.waiting().len() == held.waiting().len() - 1,
        held.waiting().len() == 1 ==> chosen(held.waiting()) == k && released.waiting().len() == 0,
{
    lemma_notification_wakes_a_waiter(held.waiting(), k);
    let woken = held.waiting()[chosen(held.waiting())].target().0;
    assert(ready_before + seq![woken] =~= ready_before.push(woken));
    if held.waiting().len() == 1 {
        let c = chosen(held.waiting());
        if c != k {
            assert(held.waiting().remove(c).contains_key(k));
            assert(held.waiting().remove(c).len() == 0);
            assert(held.waiting().remove(c).dom() =~= Set::<u64>::empty());
        }
    }
}

/// The processor's interrupt-enable flag, as the locks see it. Whoever
/// drives the hardware reads the flag into this value before a call and
/// carries the value out to the processor after it.
#[derive(Debug, Clone, Copy, PartialEq, Eq, Structural)]
pub struct Interrupts {
    /// Whether interrupts are enabled.
    pub enabled: bool,
}

impl Interrupts {
    /// The flag with the given value.
    pub fn new(enabled: bool) -> (interrupts: Self)
        ensures
            interrupts.enabled == enabled,
    {
        Interrupts { enabled }
    }

    /// Whether interrupts are enabled.
    pub fn are_enabled(&self) -> (enabled: bool)
        ensures
            enabled == self.enabled,
    {
        self.enabled
    }

    /// Enables interrupts.
    pub fn enable(&mut self)
        ensures
            final(self).enabled,
    {
        self.enabled = true;
    }

    /// Disables interrupts.
    pub fn disable(&mut self)
        ensures
            !final(self).enabled,
    {
        self.enabled = false;
    }
}

/// A [`Mutex`] for data that an interrupt handler touches as well:
/// interrupts are disabled for as long as the lock is held.
pub struct IntMutex<T>(Mutex<T>);

/// The proof of having acquired an [`IntMutex`], with the interrupt-enable
/// state that was found before the acquisition and is restored on release.
#[derive(Debug)]
pub struct IntMutexGuard(MutexGuard, bool);

impl IntMutexGuard {
    /// Whether interrupts were enabled before the lock was taken.
    pub closed spec fn restores(&self) -> bool {
        self.1
    }

    /// The payload of the mutex that this guard holds. The mutex is held:
    /// that is what the guard stands for.
    pub fn deref<'a, T>(&self, mutex: &'a IntMutex<T>) -> (payload: &'a T)
        requires
            mutex.is_locked(),
        ensures
            *payload == mutex.payload(),
    {
        &mutex.0.inner
    }

    /// The payload of the mutex that this guard holds, to change it.
    pub fn deref_mut<'a, T>(&mut self, mutex: &'a mut IntMutex<T>) -> (payload: &'a mut T)
        requires
            old(mutex).is_locked(),
        ensures
            final(self).restores() == old(self).restores(),
            *payload == old(mutex).payload(),
            final(mutex).payload() == *final(payload),
            final(mutex).is_locked() == old(mutex).is_locked(),
            final(mutex).live_guards() == old(mutex).live_guards(),
            final(mutex).waiting() == old(mutex).waiting(),
            final(mutex).next_handle() == old(mutex).next_handle(),
    {
        &mut mutex.0.inner
    }
}

impl<T> IntMutex<T> {
    /// Whether the lock is held.
    pub closed spec fn is_locked(&self) -> bool {
        self.0.is_locked()
    }

    /// The number of guards that were handed out and not yet handed back.
    pub closed spec fn live_guards(&self) -> nat {
        self.0.live_guards()
    }

    /// The payload.
    pub closed spec fn payload(&self) -> T {
        self.0.payload()
    }

    /// The handles left by the parties that wait for the lock.
    pub closed spec fn waiting(&self) -> Map<u64, Waker> {
        self.0.waiting()
    }

    /// The number under which the next party will register.
    pub closed spec fn next_handle(&self) -> u64 {
        self.0.next_handle()
    }

    /// A guard is live exactly while the lock is held, and never more than
    /// one; and finitely many parties wait.
    pub open spec fn wf(&self) -> bool {
        &&& self.live_guards() == if self.is_locked() {
            1nat
        } else {
            0nat
        }
        &&& self.waiting().dom().finite()
    }

    /// A free lock around `inner`, with nobody waiting.
    pub fn new(inner: T) -> (mutex: Self)
        ensures
            mutex.wf(),
            !mutex.is_locked(),
            mutex.payload() == inner,
            mutex.waiting() == Map::<u64, Waker>::empty(),
            mutex.next_handle() == 0,
    {
        IntMutex(Mutex::new(inner))
    }

    /// Whether the lock is held.
    pub fn locked(&self) -> (b: bool)
        ensures
            b == self.is_locked(),
    {
        self.0.locked()
    }

    /// Notes whether interrupts are enabled, disables them, and takes the
    /// lock if it is free. On success interrupts stay disabled and the guard
    /// remembers what was noted. On failure the interrupt state is put back
    /// and nothing has changed.
    pub fn try_lock(&mut self, interrupts: &mut Interrupts) -> (guard: Option<IntMutexGuard>)
        requires
            old(self).wf(),
        ensures
            final(self).wf(),
            guard.is_some() <==> !old(self).is_locked(),
            final(self).is_locked(),
            guard.is_some() ==> !final(interrupts).enabled && guard.unwrap().restores() == old(
                interrupts,
            ).enabled && final(self).live_guards() == old(self).live_guards() + 1,
            guard.is_none() ==> *final(interrupts) == *old(interrupts) && final(self).live_guards()
                == old(self).live_guards(),
            final(self).payload() == old(self).payload(),
            final(self).waiting() == old(self).waiting(),
            final(self).next_handle() == old(self).next_handle(),
    {
        let enabled = interrupts.are_enabled();
        if enabled {
            interrupts.disable();
        }
        match self.0.try_lock() {
            Some(guard) => Some(IntMutexGuard(guard, enabled)),
            None => {
                if enabled {
                    interrupts.enable();
                }
                None
            },
        }
    }

    /// Starts an attempt to acquire the lock by waiting: issues the number
    /// under which the party will register.
    pub fn locker(&mut self) -> (locker: MutexLocker)
        requires
            old(self).wf(),
        ensures
            final(self).wf(),
            locker.index() == old(self).next_handle(),
            final(self).is_locked() == old(self).is_locked(),
            final(self).live_guards() == old(self).live_guards(),
            final(self).payload() == old(self).payload(),
            final(self).waiting() == old(self).waiting(),
            old(self).next_handle() < u64::MAX ==> final(self).next_handle() == old(
                self,
            ).next_handle() + 1,
            old(self).next_handle() == u64::MAX ==> final(self).next_handle() == 0,
    {
        self.0.locker()
    }

    /// One advance of the waiting acquire. If the lock is held, `waker` is
    /// left with the mutex, the interrupt state stays as it was, and the
    /// party is to suspend. If it is free, it is taken as by
    /// [`IntMutex::try_lock`], and what this party left with the mutex is
    /// withdrawn.
    pub fn lock(
        &mut self,
        locker: &mut MutexLocker,
        waker: Waker,
        interrupts: &mut Interrupts,
    ) -> (guard: Option<IntMutexGuard>)
        requires
            old(self).wf(),
        ensures
            final(self).wf(),
            final(locker).index() == old(locker).index(),
            guard.is_some() <==> !old(self).is_locked(),
            final(self).is_locked(),
            final(self).payload() == old(self).payload(),
            final(self).next_handle() == old(self).next_handle(),
            guard.is_none() ==> *final(interrupts) == *old(interrupts) && final(self).live_guards()
                == old(self).live_guards() && final(self).waiting() == old(self).waiting().insert(
                old(locker).index(),
                waker,
            ),
            guard.is_some() ==> !final(interrupts).enabled && guard.unwrap().restores() == old(
                interrupts,
            ).enabled && final(self).live_guards() == old(self).live_guards() + 1
                && final(self).waiting() == old(self).waiting().remove(old(locker).index()),
    {
        match locker.poll(&mut self.0, waker) {
            Poll::Pending => None,
            Poll::Ready => {
                let guard = self.try_lock(interrupts);
                self.0.wakeup_list.unregister(&locker.wake_handle);
                guard
            },
        }
    }

    /// Takes a lock that is free without suspending, disabling interrupts.
    /// The caller makes sure that the lock is free: see
    /// [`Mutex::spin_lock`].
    pub fn spin_lock(&mut self, interrupts: &mut Interrupts) -> (guard: IntMutexGuard)
        requires
            old(self).wf(),
            !old(self).is_locked(),
        ensures
            final(self).wf(),
            final(self).is_locked(),
            final(self).live_guards() == 1,
            !final(interrupts).enabled,
            guard.restores() == old(interrupts).enabled,
            final(self).payload() == old(self).payload(),
            final(self).waiting() == old(self).waiting(),
            final(self).next_handle() == old(self).next_handle(),
    {
        match self.try_lock(interrupts) {
            Some(guard) => guard,
            None => vstd::pervasive::unreached(),
        }
    }

    /// Releases the lock as [`Mutex::unlock`] does, then enables interrupts
    /// if they were enabled before the lock was taken.
    pub fn unlock(&mut self, guard: IntMutexGuard, ready: &mut ReadyQueue, interrupts: &mut Interrupts)
        requires
            old(self).wf(),
            old(self).is_locked(),
        ensures
            final(self).wf(),
            !final(self).is_locked(),
            final(self).live_guards() == 0,
            final(interrupts).enabled == (guard.restores() || old(interrupts).enabled),
            final(self).payload() == old(self).payload(),
            final(self).next_handle() == old(self).next_handle(),
            final(self).waiting() == after_notify(old(self).waiting()),
            final(ready)@ == old(ready)@ + notified(old(self).waiting()),
    {
        let IntMutexGuard(inner, enabled) = guard;
        self.0.unlock(inner, ready);
        if enabled {
            interrupts.enable();
        }
    }

    /// Clears the flag without a guard, without waking anybody and without
    /// touching the interrupt state.
    pub fn force_unlock(&mut self)
        ensures
            final(self).wf(),
            !final(self).is_locked(),
            final(self).payload() == old(self).payload(),
            final(self).waiting() == old(self).waiting(),
            final(self).next_handle() == old(self).next_handle(),
    {
        self.0.force_unlock();
    }

    /// The payload, for whoever owns the mutex outright.
    pub fn get_mut(&mut self) -> (payload: &mut T)
        ensures
            *payload == old(self).payload(),
            final(self).payload() == *final(payload),
            final(self).is_locked() == old(self).is_locked(),
            final(self).live_guards() == old(self).live_guards(),
            final(self).waiting() == old(self).waiting(),
            final(self).next_handle() == old(self).next_handle(),
    {
        self.0.get_mut()
    }
}

} // verus!
