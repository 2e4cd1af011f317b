//! The sleep service: a tick counter driven by the periodic timer interrupt,
//! and the registry of the tasks that wait for a tick.

use crate::inline_ids::{held_ids, ids_get, ids_len, ids_new, ids_push, InlineIds};
use crate::map_ops::{
    keys_below, least_key, lemma_least_key, lemma_least_key_exists, map_last_key, map_pop_first,
    map_split_off,
};
use crate::mutex::{IntMutex, Interrupts};
use crate::ready_queue::ReadyQueue;
use crate::task::{Context, Poll, TaskId, Waker};
use crate::waker_list::{after_notify, notified};
use std::collections::BTreeMap;
use vstd::prelude::*;

verus! {

/// The number of timer interrupts per second.
pub const TIMER_FREQ: u64 = 8192;

/// The number of nanoseconds in a second.
pub const NANOS_PER_SEC: u64 = 1_000_000_000;

/// The count of timer interrupts since boot. It starts at zero, goes up by
/// one with each interrupt and is never reset.
pub struct MonotonicTime {
    ticks: u64,
}

impl MonotonicTime {
    /// The current tick.
    pub closed spec fn tick(&self) -> u64 {
        self.ticks
    }

    /// The counter at boot.
    pub fn new() -> (time: Self)
        ensures
            time.tick() == 0,
    {
        MonotonicTime { ticks: 0 }
    }

    /// The current tick.
    pub fn now(&self) -> (tick: u64)
        ensures
            tick == self.tick(),
    {
        self.ticks
    }

    /// Counts one timer interrupt and returns the new tick. After `u64::MAX`
    /// the counter starts again at zero.
    pub fn advance(&mut self) -> (tick: u64)
        ensures
            tick == final(self).tick(),
            old(self).tick() < u64::MAX ==> final(self).tick() == old(self).tick() + 1,
            old(self).tick() == u64::MAX ==> final(self).tick() == 0,
    {
        self.ticks = self.ticks.wrapping_add(1);
        self.ticks
    }
}

/// The number of whole ticks in a duration of `secs` seconds and `nanos`
/// nanoseconds.
pub open spec fn duration_ticks(secs: u64, nanos: u32) -> int {
    secs * TIMER_FREQ + (nanos * TIMER_FREQ) / (NANOS_PER_SEC as int)
}

/// The number of ticks that a sleep of the given duration waits for: the
/// whole ticks in the duration, as far as they fit the counter, less the one
/// by which the counter lags.
pub open spec fn sleep_ticks(secs: u64, nanos: u32) -> int {
    let whole = if duration_ticks(secs, nanos) > u64::MAX {
        u64::MAX as int
    } else {
        duration_ticks(secs, nanos)
    };
    if whole == 0 {
        0
    } else {
        whole - 1
    }
}

/// The tick at which a sleep of the given duration ends when it starts at
/// `start`. The sum wraps around at the end of the counter's range.
pub open spec fn end_tick_of(start: u64, secs: u64, nanos: u32) -> u64 {
    ((start + sleep_ticks(secs, nanos)) % 0x1_0000_0000_0000_0000) as u64
}

/// The number of ticks that it takes to cover a duration of `secs` seconds
/// and `nanos` nanoseconds: the whole ticks, and one more for a rest.
pub open spec fn covering_ticks(secs: u64, nanos: u32) -> int {
    secs * TIMER_FREQ + (nanos * TIMER_FREQ + NANOS_PER_SEC - 1) / (NANOS_PER_SEC as int)
}

/// A sleep is not over early. While the counter does not wrap around and the
/// duration fits its range, a sleep that started at tick `start` and is over
/// at tick `now` has seen the counter advance by the duration's whole ticks
/// less one; for a duration of a whole number of ticks that is the number of
/// ticks covering it, less one.
pub proof fn lemma_sleep_is_not_over_early(secs: u64, nanos: u32, start: u64, now: u64)
    requires
        nanos < NANOS_PER_SEC,
        duration_ticks(secs, nanos) <= u64::MAX,
        start + sleep_ticks(secs, nanos) <= u64::MAX,
        now >= end_tick_of(start, secs, nanos),
    ensures
        now - start >= duration_ticks(secs, nanos) - 1,
        (nanos * TIMER_FREQ) % (NANOS_PER_SEC as int) == 0 ==> now - start >= covering_ticks(
            secs,
            nanos,
        ) - 1,
{
}

/// Computes [`sleep_ticks`].
pub fn ticks_to_sleep(secs: u64, nanos: u32) -> (ticks: u64)
    requires
        nanos < NANOS_PER_SEC,
    ensures
        ticks == sleep_ticks(secs, nanos),
{
    let fraction: u64 = (nanos as u64 * TIMER_FREQ) / NANOS_PER_SEC;
    let exact: u128 = secs as u128 * TIMER_FREQ as u128 + fraction as u128;
    let whole: u64 = if exact > u64::MAX as u128 {
        u64::MAX
    } else {
        exact as u64
    };
    if whole == 0 {
        0
    } else {
        whole - 1
    }
}

/// The key under which the registry files the tick `tick`: the registry is
/// ordered by descending tick.
pub open spec fn reversed(tick: u64) -> u64 {
    (u64::MAX - tick) as u64
}

/// The order in which the sleepers in `due` are woken: entry by entry from
/// the least key up, that is from the latest tick down, and within one entry
/// in the order of registration.
pub open spec fn wake_order(due: Map<u64, Seq<u64>>) -> Seq<u64>
    decreases due.len(),
    when due.dom().finite()
{
    if due.len() == 0 {
        Seq::<u64>::empty()
    } else {
        let k = least_key(due);
        if due.contains_key(k) {
            due[k] + wake_order(due.remove(k))
        } else {
            Seq::<u64>::empty()
        }
    }
}

/// The tasks that sleep, by the tick they wait for.
pub struct SleepRegistry {
    entries: BTreeMap<u64, InlineIds>,
}

impl SleepRegistry {
    /// The sleepers: for each tick that somebody waits for, filed under
    /// [`reversed`] of that tick, the identifiers of the tasks to wake, in the
    /// order they registered.
    pub closed spec fn entries(&self) -> Map<u64, Seq<u64>> {
        listed(self.entries@)
    }

    /// The tasks that wait for `tick`, in the order they registered.
    pub open spec fn sleepers_at(&self, tick: u64) -> Seq<u64> {
        if self.entries().contains_key(reversed(tick)) {
            self.entries()[reversed(tick)]
        } else {
            Seq::<u64>::empty()
        }
    }

    /// A registry never holds more than finitely many ticks.
    pub proof fn lemma_entries_are_finite(&self)
        ensures
            self.entries().dom().finite(),
    {
        assert(self.entries().dom() =~= self.entries@.dom());
    }

    /// A registry with no sleeper.
    pub fn new() -> (registry: Self)
        ensures
            registry.entries() == Map::<u64, Seq<u64>>::empty(),
    {
        let registry = SleepRegistry { entries: BTreeMap::new() };
        assert(registry.entries() =~= Map::<u64, Seq<u64>>::empty());
        registry
    }

    /// The number of ticks that somebody waits for.
    pub fn len(&self) -> (n: usize)
        ensures
            n == self.entries().len(),
    {
        assert(self.entries().dom() =~= self.entries@.dom());
        self.entries.len()
    }

    /// Adds the task that `waker` wakes to those waiting for `tick`, behind
    /// the ones already there.
    pub fn insert(&mut self, tick: u64, waker: Waker)
        ensures
            final(self).entries() == old(self).entries().insert(
                reversed(tick),
                old(self).sleepers_at(tick).push(waker.target().0),
            ),
    {
        let key = u64::MAX - tick;
        let mut list = match self.entries.remove(&key) {
            Some(list) => list,
            None => ids_new(),
        };
        assert(held_ids(list) == old(self).sleepers_at(tick));
        ids_push(&mut list, waker.task_id.0);
        self.entries.insert(key, list);
        assert(self.entries() =~= old(self).entries().insert(
            reversed(tick),
            old(self).sleepers_at(tick).push(waker.target().0),
        ));
    }
}

/// What a map of lists holds: the identifiers of each list.
pub open spec fn listed(m: Map<u64, InlineIds>) -> Map<u64, Seq<u64>> {
    m.map_values(|list: InlineIds| held_ids(list))
}

/// The sleepers of the entry with the least key are woken first, then those
/// of the other entries.
pub proof fn lemma_wake_order_step(due: Map<u64, Seq<u64>>, k: u64)
    requires
        due.dom().finite(),
        due.contains_key(k),
        forall|j: u64| due.contains_key(j) ==> k <= j,
    ensures
        wake_order(due) == due[k] + wake_order(due.remove(k)),
{
    lemma_least_key(due, k);
    assert(due.len() > 0) by {
        if due.len() == 0 {
            assert(due.dom() =~= Set::<u64>::empty());
        }
    }
}

/// With no entry, nobody is woken.
pub proof fn lemma_wake_order_empty(due: Map<u64, Seq<u64>>)
    requires
        due.dom() =~= Set::<u64>::empty(),
    ensures
        wake_order(due) == Seq::<u64>::empty(),
{
    assert(due.dom().finite());
    assert(due.len() == 0);
}

/// Every sleeper of every entry is woken.
pub proof fn lemma_wake_order_holds_every_sleeper(due: Map<u64, Seq<u64>>, k: u64, i: int)
    requires
        due.dom().finite(),
        due.contains_key(k),
        0 <= i < due[k].len(),
    ensures
        wake_order(due).contains(due[k][i]),
    decreases due.len(),
{
    lemma_least_key_exists(due, k);
    let least = least_key(due);
    lemma_wake_order_step(due, least);
    let rest = wake_order(due.remove(least));
    if k == least {
        assert((due[least] + rest)[i] == due[k][i]);
    } else {
        lemma_wake_order_holds_every_sleeper(due.remove(least), k, i);
        let at = choose|at: int| 0 <= at < rest.len() && rest[at] == due[k][i];
        assert((due[least] + rest)[due[least].len() + at] == due[k][i]);
    }
}

/// Nobody is woken who is not a sleeper of some entry.
pub proof fn lemma_wake_order_holds_only_sleepers(due: Map<u64, Seq<u64>>, id: u64)
    requires
        due.dom().finite(),
        wake_order(due).contains(id),
    ensures
        exists|k: u64, i: int| due.contains_key(k) && 0 <= i < due[k].len() && due[k][i] == id,
    decreases due.len(),
{
    if due.len() == 0 {
        assert(wake_order(due) =~= Seq::<u64>::empty());
    } else {
        let any = choose|k: u64| due.dom().contains(k);
        assert(due.contains_key(any)) by {
            if due.dom() =~= Set::<u64>::empty() {
            } else {
                assert(exists|k: u64| due.dom().contains(k));
            }
        }
        lemma_least_key_exists(due, any);
        let least = least_key(due);
        lemma_wake_order_step(due, least);
        let rest = wake_order(due.remove(least));
        let at = choose|at: int| 0 <= at < (due[least] + rest).len() && (due[least] + rest)[at] == id;
        if at < due[least].len() {
            assert(due.contains_key(least) && 0 <= at < due[least].len() && due[least][at] == id);
        } else {
            assert(rest[at - due[least].len()] == id);
            lemma_wake_order_holds_only_sleepers(due.remove(least), id);
            let (k, i) = choose|k: u64, i: int|
                due.remove(least).contains_key(k) && 0 <= i < due.remove(least)[k].len()
                    && due.remove(least)[k][i] == id;
            assert(due.contains_key(k) && 0 <= i < due[k].len() && due[k][i] == id);
        }
    }
}

/// Wakes the tasks of one list, in the list's order.
fn wake_all(list: &InlineIds, ready: &mut ReadyQueue)
    ensures
        final(ready)@ == old(ready)@ + held_ids(*list),
{
    let ghost ids = held_ids(*list);
    let n = ids_len(list);
    let mut i: usize = 0;
    proof {
        assert(old(ready)@ + ids.take(0) =~= old(ready)@);
    }
    while i < n
        invariant
            i <= n,
            n == ids.len(),
            ids == held_ids(*list),
            ready@ == old(ready)@ + ids.take(i as int),
        decreases n - i,
    {
        let id = ids_get(list, i);
        Waker::new(TaskId(id)).wake_by_ref(ready);
        proof {
            assert(ids.take(i as int + 1) =~= ids.take(i as int).push(id));
            assert((old(ready)@ + ids.take(i as int)).push(id) =~= old(ready)@ + ids.take(
                i as int + 1,
            ));
        }
        i = i + 1;
    }
    proof {
        assert(ids.take(n as int) =~= ids);
    }
}

/// Wakes the tasks of every entry of `done`, in [`wake_order`], and empties
/// it.
fn wake_entries(done: &mut BTreeMap<u64, InlineIds>, ready: &mut ReadyQueue)
    ensures
        final(ready)@ == old(ready)@ + wake_order(listed(old(done)@)),
        final(done)@.len() == 0,
{
    let ghost mut woken: Seq<u64> = Seq::empty();
    proof {
        assert(old(ready)@ + woken =~= old(ready)@);
        assert(woken + wake_order(listed(done@)) =~= wake_order(listed(done@)));
    }
    loop
        invariant
            ready@ == old(ready)@ + woken,
            woken + wake_order(listed(done@)) == wake_order(listed(old(done)@)),
        ensures
            done@.len() == 0,
        decreases done@.len(),
    {
        let ghost before = listed(done@);
        let ghost start = ready@;
        proof {
            assert(before.dom() =~= done@.dom());
        }
        match map_pop_first(done) {
            None => {
                break ;
            },
            Some((k, list)) => {
                wake_all(&list, ready);
                proof {
                    let ids = held_ids(list);
                    assert(before[k] == ids);
                    assert(listed(done@) =~= before.remove(k));
                    lemma_wake_order_step(before, k);
                    assert((woken + ids) + wake_order(before.remove(k)) =~= woken + (ids
                        + wake_order(before.remove(k))));
                    assert(old(ready)@ + (woken + ids) =~= start + ids);
                    woken = woken + ids;
                }
            },
        }
    }
    proof {
        assert(listed(done@).dom() =~= done@.dom());
        lemma_wake_order_empty(listed(done@));
        assert(woken + Seq::<u64>::empty() =~= woken);
    }
}

impl SleepRegistry {
    /// Removes every entry whose tick is `tick` or earlier and wakes all its
    /// tasks, in [`wake_order`]. Nothing is split off while the earliest
    /// registered tick is still ahead.
    pub fn wake_due(&mut self, tick: u64, ready: &mut ReadyQueue)
        ensures
            final(self).entries() == old(self).entries().restrict(keys_below(reversed(tick))),
            final(ready)@ == old(ready)@ + wake_order(
                old(self).entries().remove_keys(keys_below(reversed(tick))),
            ),
            forall|t: u64|
                t <= tick ==> (#[trigger] final(self).sleepers_at(t)) == Seq::<u64>::empty(),
            forall|t: u64| t > tick ==> (#[trigger] final(self).sleepers_at(t)) == old(
                self,
            ).sleepers_at(t),
    {
        let key = u64::MAX - tick;
        let ghost due = old(self).entries().remove_keys(keys_below(key));
        proof {
            assert(old(self).entries().dom() =~= old(self).entries@.dom());
        }
        let nothing_due = match map_last_key(&self.entries) {
            None => true,
            Some(last) => last < key,
        };
        if nothing_due {
            proof {
                assert(due.dom() =~= Set::<u64>::empty());
                lemma_wake_order_empty(due);
                assert(self.entries() =~= old(self).entries().restrict(keys_below(key)));
                assert(old(ready)@ + Seq::<u64>::empty() =~= old(ready)@);
            }
            return ;
        }
        let mut done = map_split_off(&mut self.entries, key);
        proof {
            assert(self.entries() =~= old(self).entries().restrict(keys_below(key)));
            assert(listed(done@) =~= due);
        }
        wake_entries(&mut done, ready);
    }
}

/// The periodic interrupt's part of the sleep service: wakes every task
/// whose tick is `tick` or earlier and removes it from the registry. It
/// never waits: it tries the registry's lock once. An interrupt handler that
/// finds the lock held can neither wait nor go on, so a held lock is fatal
/// there; the caller makes sure that the lock is free. The lock is taken and
/// released, which wakes one party waiting for the lock itself, if there is
/// any, after the sleepers.
pub fn wake_sleep(
    service: &mut IntMutex<SleepRegistry>,
    tick: u64,
    ready: &mut ReadyQueue,
    interrupts: &mut Interrupts,
)
    requires
        old(service).wf(),
        !old(service).is_locked(),
    ensures
        final(service).wf(),
        !final(service).is_locked(),
        final(service).next_handle() == old(service).next_handle(),
        final(interrupts).enabled == old(interrupts).enabled,
        final(service).payload().entries() == old(service).payload().entries().restrict(
            keys_below(reversed(tick)),
        ),
        final(service).waiting() == after_notify(old(service).waiting()),
        final(ready)@ == old(ready)@ + wake_order(
            old(service).payload().entries().remove_keys(keys_below(reversed(tick))),
        ) + notified(old(service).waiting()),
        forall|t: u64|
            t <= tick ==> (#[trigger] final(service).payload().sleepers_at(t)) == Seq::<
                u64,
            >::empty(),
        forall|t: u64|
            t > tick ==> (#[trigger] final(service).payload().sleepers_at(t)) == old(
                service,
            ).payload().sleepers_at(t),
{
    let mut guard = match service.try_lock(interrupts) {
        Some(guard) => guard,
        None => vstd::pervasive::unreached(),
    };
    let registry = guard.deref_mut(service);
    registry.wake_due(tick, ready);
    service.unlock(guard, ready, interrupts);
}

/// Files `waker` with the registry under `tick`. The registry's lock is
/// taken for the time of the change, with interrupts disabled, and released
/// again; the caller makes sure that it is free.
pub fn register_sleep(
    service: &mut IntMutex<SleepRegistry>,
    tick: u64,
    waker: Waker,
    ready: &mut ReadyQueue,
    interrupts: &mut Interrupts,
)
    requires
        old(service).wf(),
        !old(service).is_locked(),
    ensures
        final(service).wf(),
        !final(service).is_locked(),
        final(service).payload().entries() == old(service).payload().entries().insert(
            reversed(tick),
            old(service).payload().sleepers_at(tick).push(waker.target().0),
        ),
        final(interrupts).enabled == old(interrupts).enabled,
        final(service).next_handle() == old(service).next_handle(),
        final(service).waiting() == after_notify(old(service).waiting()),
        final(ready)@ == old(ready)@ + notified(old(service).waiting()),
{
    let mut guard = service.spin_lock(interrupts);
    let registry = guard.deref_mut(service);
    registry.insert(tick, waker);
    service.unlock(guard, ready, interrupts);
}

/// A sleep in progress: the tick at which it ends, and whether it has been
/// filed with the registry.
pub struct SleepFuture {
    end_tick: u64,
    registered: bool,
}

impl SleepFuture {
    /// The tick at which the sleep ends.
    pub closed spec fn end(&self) -> u64 {
        self.end_tick
    }

    /// Whether the sleep has been filed with the registry.
    pub closed spec fn is_registered(&self) -> bool {
        self.registered
    }

    /// Whether the sleep is over at the tick `now`.
    pub open spec fn is_due(&self, now: u64) -> bool {
        now >= self.end()
    }

    /// A sleep of `secs` seconds and `nanos` nanoseconds that starts now. It
    /// is not yet filed with the registry.
    pub fn new(secs: u64, nanos: u32, time: &MonotonicTime) -> (sleep: Self)
        requires
            nanos < NANOS_PER_SEC,
        ensures
            sleep.end() == end_tick_of(time.tick(), secs, nanos),
            !sleep.is_registered(),
    {
        let ticks = ticks_to_sleep(secs, nanos);
        let start = time.now();
        let end_tick = start.wrapping_add(ticks);
        SleepFuture { end_tick, registered: false }
    }

    /// One advance of the sleep. It is over as soon as the counter has
    /// reached the end tick. Until then it stays pending, and the first
    /// pending advance files the context's handle with the registry, once.
    pub fn poll(
        &mut self,
        time: &MonotonicTime,
        service: &mut IntMutex<SleepRegistry>,
        cx: &mut Context,
        interrupts: &mut Interrupts,
    ) -> (poll: Poll)
        requires
            old(service).wf(),
            !old(self).is_due(time.tick()) && !old(self).is_registered() ==> !old(
                service,
            ).is_locked(),
        ensures
            final(service).wf(),
            final(self).end() == old(self).end(),
            final(cx).own_waker() == old(cx).own_waker(),
            final(interrupts).enabled == old(interrupts).enabled,
            final(service).next_handle() == old(service).next_handle(),
            final(service).is_locked() == old(service).is_locked(),
            poll == Poll::Ready <==> old(self).is_due(time.tick()),
            poll == Poll::Pending <==> !old(self).is_due(time.tick()),
            final(self).is_registered() == (old(self).is_registered() || poll == Poll::Pending),
            poll == Poll::Ready || old(self).is_registered() ==> final(service).payload()
                == old(service).payload(),
            poll == Poll::Ready || old(self).is_registered() ==> final(service).waiting()
                == old(service).waiting(),
            poll == Poll::Ready || old(self).is_registered() ==> final(cx).woken_ids()
                == old(cx).woken_ids(),
            poll == Poll::Pending && !old(self).is_registered() ==> final(service).payload().entries()
                == old(service).payload().entries().insert(
                reversed(old(self).end()),
                old(service).payload().sleepers_at(old(self).end()).push(
                    old(cx).own_waker().target().0,
                ),
            ),
            poll == Poll::Pending && !old(self).is_registered() ==> final(service).waiting()
                == after_notify(old(service).waiting()),
            poll == Poll::Pending && !old(self).is_registered() ==> final(cx).woken_ids()
                == old(cx).woken_ids() + notified(old(service).waiting()),
    {
        if time.now() >= self.end_tick {
            Poll::Ready
        } else {
            if !self.registered {
                let waker = cx.waker();
                register_sleep(service, self.end_tick, waker, cx.ready(), interrupts);
                self.registered = true;
            }
            Poll::Pending
        }
    }
}

/// Starts a sleep of `secs` seconds and `nanos` nanoseconds: see
/// [`SleepFuture::new`].
pub fn sleep(secs: u64, nanos: u32, time: &MonotonicTime) -> (sleep: SleepFuture)
    requires
        nanos < NANOS_PER_SEC,
    ensures
        sleep.end() == end_tick_of(time.tick(), secs, nanos),
        !sleep.is_registered(),
{
    SleepFuture::new(secs, nanos, time)
}

/// The entry point of the periodic timer interrupt: counts the tick, then
/// wakes the sleepers that are due at the new tick, as [`wake_sleep`] does.
/// The caller makes sure that the registry's lock is free.
pub fn clock_tick(
    time: &mut MonotonicTime,
    service: &mut IntMutex<SleepRegistry>,
    ready: &mut ReadyQueue,
    interrupts: &mut Interrupts,
)
    requires
        old(service).wf(),
        !old(service).is_locked(),
    ensures
        final(service).wf(),
        !final(service).is_locked(),
        old(time).tick() < u64::MAX ==> final(time).tick() == old(time).tick() + 1,
        old(time).tick() == u64::MAX ==> final(time).tick() == 0,
        final(service).next_handle() == old(service).next_handle(),
        final(interrupts).enabled == old(interrupts).enabled,
        final(service).payload().entries() == old(service).payload().entries().restrict(
            keys_below(reversed(final(time).tick())),
        ),
        final(service).waiting() == after_notify(old(service).waiting()),
        final(ready)@ == old(ready)@ + wake_order(
            old(service).payload().entries().remove_keys(keys_below(reversed(final(time).tick()))),
        ) + notified(old(service).waiting()),
        forall|t: u64|
            t <= final(time).tick() ==> (#[trigger] final(service).payload().sleepers_at(t))
                == Seq::<u64>::empty(),
        forall|t: u64|
            t > final(time).tick() ==> (#[trigger] final(service).payload().sleepers_at(t)) == old(
                service,
            ).payload().sleepers_at(t),
{
    let tick = time.advance();
    wake_sleep(service, tick, ready, interrupts);
}

} // verus!
