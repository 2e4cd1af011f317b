//! A list of the parties that wait for one resource. Each party registers
//! under a handle of its own, so that it can withdraw again.

use crate::map_ops::{least_key, lemma_least_key, lemma_least_key_exists, map_pop_first};
use crate::ready_queue::ReadyQueue;
use crate::task::Waker;
use std::collections::BTreeMap;
use vstd::prelude::*;

verus! {

/// The registration that a notification takes from `waiting`: the one with
/// the least handle number.
pub open spec fn chosen(waiting: Map<u64, Waker>) -> u64 {
    least_key(waiting)
}

/// The identifiers that one notification of `waiting` puts on the ready
/// queue: that of the chosen party, or nothing when nobody waits.
pub open spec fn notified(waiting: Map<u64, Waker>) -> Seq<u64> {
    if waiting.len() == 0 {
        Seq::<u64>::empty()
    } else {
        seq![waiting[chosen(waiting)].target().0]
    }
}

/// The registrations left after one notification of `waiting`.
pub open spec fn after_notify(waiting: Map<u64, Waker>) -> Map<u64, Waker> {
    if waiting.len() == 0 {
        waiting
    } else {
        waiting.remove(chosen(waiting))
    }
}

/// A notification with somebody waiting wakes exactly one of the waiting
/// parties, the one with the least handle number, and removes it.
pub proof fn lemma_notification_wakes_a_waiter(waiting: Map<u64, Waker>, k: u64)
    requires
        waiting.dom().finite(),
        waiting.contains_key(k),
    ensures
        waiting.contains_key(chosen(waiting)),
        forall|j: u64| waiting.contains_key(j) ==> chosen(waiting) <= j,
        notified(waiting) == seq![waiting[chosen(waiting)].target().0],
        after_notify(waiting) == waiting.remove(chosen(waiting)),
        after_notify(waiting).len() == waiting.len() - 1,
{
    lemma_least_key_exists(waiting, k);
    assert(waiting.len() > 0) by {
        if waiting.len() == 0 {
            assert(waiting.dom() =~= Set::<u64>::empty());
        }
    }
}

/// A party that waits alone is the one that a notification wakes, and
/// nobody waits afterwards.
pub proof fn lemma_sole_waiter_is_woken(k: u64, waker: Waker)
    ensures
        notified(Map::<u64, Waker>::empty().insert(k, waker)) == seq![waker.target().0],
        after_notify(Map::<u64, Waker>::empty().insert(k, waker)) == Map::<u64, Waker>::empty(),
{
    let waiting = Map::<u64, Waker>::empty().insert(k, waker);
    lemma_least_key(waiting, k);
    lemma_notification_wakes_a_waiter(waiting, k);
    assert(waiting.remove(k) =~= Map::<u64, Waker>::empty());
}

/// The registrations of a list, and the number of the next handle.
pub struct WakerListInner {
    id: u64,
    wakers: BTreeMap<u64, Waker>,
}

/// The parties waiting for one resource.
pub struct WakerList {
    inner: WakerListInner,
}

/// The place of one party in a list. Registering again under the same handle
/// replaces the earlier registration.
pub struct WakerListHandle {
    id: u64,
}

impl WakerListHandle {
    /// The number of this handle.
    pub closed spec fn index(&self) -> u64 {
        self.id
    }

    /// Records `waker` under this handle.
    pub fn register(&mut self, list: &mut WakerList, waker: Waker)
        ensures
            final(self).index() == old(self).index(),
            final(list).registered() == old(list).registered().insert(old(self).index(), waker),
            final(list).next_handle() == old(list).next_handle(),
    {
        list.inner.wakers.insert(self.id, waker);
    }

    /// Gives the handle up: its registration, if there is one, leaves the
    /// list.
    pub fn release(self, list: &mut WakerList)
        ensures
            final(list).registered() == old(list).registered().remove(self.index()),
            final(list).next_handle() == old(list).next_handle(),
    {
        list.inner.wakers.remove(&self.id);
    }
}

impl WakerList {
    /// The handles registered, by handle number.
    pub closed spec fn registered(&self) -> Map<u64, Waker> {
        self.inner.wakers@
    }

    /// The number that the next handle gets.
    pub closed spec fn next_handle(&self) -> u64 {
        self.inner.id
    }

    /// A list never holds more than finitely many registrations.
    pub proof fn lemma_registered_is_finite(&self)
        ensures
            self.registered().dom().finite(),
    {
    }

    /// A list with no registration.
    pub fn new() -> (list: Self)
        ensures
            list.registered() == Map::<u64, Waker>::empty(),
            list.next_handle() == 0,
    {
        WakerList { inner: WakerListInner { id: 0, wakers: BTreeMap::new() } }
    }

    /// The number of registrations.
    pub fn len(&self) -> (n: usize)
        ensures
            n == self.registered().len(),
    {
        self.inner.wakers.len()
    }

    /// Issues a handle. Handle numbers count up and start again at zero
    /// after `u64::MAX`.
    pub fn handle(&mut self) -> (handle: WakerListHandle)
        ensures
            handle.index() == old(self).next_handle(),
            final(self).registered() == old(self).registered(),
            old(self).next_handle() < u64::MAX ==> final(self).next_handle() == old(
                self,
            ).next_handle() + 1,
            old(self).next_handle() == u64::MAX ==> final(self).next_handle() == 0,
    {
        let id = self.inner.id;
        self.inner.id = id.wrapping_add(1);
        WakerListHandle { id }
    }

    /// Records `waker` under a new handle and returns the handle.
    pub fn register(&mut self, waker: Waker) -> (handle: WakerListHandle)
        ensures
            handle.index() == old(self).next_handle(),
            final(self).registered() == old(self).registered().insert(
                old(self).next_handle(),
                waker,
            ),
            old(self).next_handle() < u64::MAX ==> final(self).next_handle() == old(
                self,
            ).next_handle() + 1,
            old(self).next_handle() == u64::MAX ==> final(self).next_handle() == 0,
    {
        let mut handle = self.handle();
        handle.register(self, waker);
        handle
    }

    /// Withdraws what was recorded under `handle`, if anything; the handle
    /// stays usable.
    pub fn unregister(&mut self, handle: &WakerListHandle)
        ensures
            final(self).registered() == old(self).registered().remove(handle.index()),
            final(self).next_handle() == old(self).next_handle(),
    {
        self.inner.wakers.remove(&handle.id);
    }

    /// Removes one registration, if there is any, and invokes it: the woken
    /// task's identifier goes to the back of `ready`. Of several registrations
    /// the one with the least handle number is taken. With no registration
    /// nothing happens.
    pub fn notify_one(&mut self, ready: &mut ReadyQueue)
        ensures
            final(self).next_handle() == old(self).next_handle(),
            final(self).registered() == after_notify(old(self).registered()),
            final(ready)@ == old(ready)@ + notified(old(self).registered()),
            old(self).registered().len() == 0 ==> final(self).registered() == old(
                self,
            ).registered() && final(ready)@ == old(ready)@,
            old(self).registered().len() > 0 ==> old(self).registered().contains_key(
                chosen(old(self).registered()),
            ),
    {
        match map_pop_first(&mut self.inner.wakers) {
            Some((k, waker)) => {
                proof {
                    lemma_least_key(old(self).registered(), k);
                    assert(old(ready)@.push(waker.target().0) =~= old(ready)@ + seq![
                        waker.target().0,
                    ]);
                }
                waker.wake_by_ref(ready);
            },
            None => {
                assert(old(ready)@ + Seq::<u64>::empty() =~= old(ready)@);
            },
        }
    }
}

} // verus!
