//! Tasks: uniquely identified resumable computations, and the handles that
//! make them ready again.

use crate::ready_queue::ReadyQueue;
use vstd::prelude::*;

verus! {

/// The identifier of a task. Identifiers are issued in increasing order.
#[derive(Debug, Clone, Copy, PartialEq, Eq, Structural)]
pub struct TaskId(pub u64);

/// The counter that task identifiers are issued from.
pub struct TaskIdSource {
    next: u64,
}

impl TaskIdSource {
    /// The value of the identifier that will be issued next.
    pub closed spec fn upcoming(&self) -> u64 {
        self.next
    }

    /// A counter that starts at zero.
    pub fn new() -> (source: Self)
        ensures
            source.upcoming() == 0,
    {
        TaskIdSource { next: 0 }
    }
}

impl TaskId {
    /// Issues the next identifier and advances the counter by one. After
    /// `u64::MAX` the counter starts again at zero.
    pub fn new(source: &mut TaskIdSource) -> (id: Self)
        ensures
            id.0 == old(source).upcoming(),
            old(source).upcoming() < u64::MAX ==> final(source).upcoming() == old(source).upcoming() + 1,
            old(source).upcoming() == u64::MAX ==> final(source).upcoming() == 0,
    {
        let id = source.next;
        source.next = id.wrapping_add(1);
        TaskId(id)
    }
}

/// What advancing a computation once led to.
#[derive(Debug, Clone, Copy, PartialEq, Eq, Structural)]
pub enum Poll {
    /// The computation has finished.
    Ready,
    /// The computation has suspended; it has arranged to be woken.
    Pending,
}

/// A handle that makes one task ready again when it is invoked.
#[derive(Debug, Clone, Copy, PartialEq, Eq, Structural)]
pub struct Waker {
    /// The task that this handle wakes.
    pub task_id: TaskId,
}

impl Waker {
    /// The task that this handle wakes.
    pub open spec fn target(&self) -> TaskId {
        self.task_id
    }

    /// A handle for the task `task_id`.
    pub fn new(task_id: TaskId) -> (waker: Self)
        ensures
            waker.target() == task_id,
    {
        Waker { task_id }
    }

    /// Puts the task's identifier at the back of the ready queue.
    pub fn wake_task(&self, ready: &mut ReadyQueue)
        ensures
            final(ready)@ == old(ready)@.push(self.target().0),
    {
        ready.push(self.task_id.0);
    }

    /// Invokes the handle and gives it up.
    pub fn wake(self, ready: &mut ReadyQueue)
        ensures
            final(ready)@ == old(ready)@.push(self.target().0),
    {
        self.wake_task(ready);
    }

    /// Invokes the handle and keeps it.
    pub fn wake_by_ref(&self, ready: &mut ReadyQueue)
        ensures
            final(ready)@ == old(ready)@.push(self.target().0),
    {
        self.wake_task(ready);
    }
}

/// What a computation is handed while it is advanced: the handle that wakes
/// its own task, and a queue that collects the wakeups it causes. The
/// scheduler moves them to its ready queue when the computation returns, so a
/// computation can make tasks ready but cannot take any from the ready queue.
pub struct Context {
    waker: Waker,
    woken: ReadyQueue,
}

impl Context {
    /// The handle carried by this context.
    pub closed spec fn own_waker(&self) -> Waker {
        self.waker
    }

    /// The identifiers woken so far during this advance, oldest first.
    pub closed spec fn woken_ids(&self) -> Seq<u64> {
        self.woken@
    }

    /// A context for advancing the task that `waker` wakes, with no wakeup
    /// collected yet.
    pub fn from_waker(waker: Waker) -> (cx: Self)
        ensures
            cx.own_waker() == waker,
            cx.woken_ids() == Seq::<u64>::empty(),
    {
        Context { waker, woken: ReadyQueue::new() }
    }

    /// The handle that wakes the task being advanced.
    pub fn waker(&self) -> (waker: Waker)
        ensures
            waker == self.own_waker(),
    {
        self.waker
    }

    /// The queue that collects the wakeups of this advance. Whatever the
    /// caller leaves in it is what the context holds afterwards.
    pub fn ready(&mut self) -> (ready: &mut ReadyQueue)
        ensures
            ready@ == old(self).woken_ids(),
            final(self).woken_ids() == final(ready)@,
            final(self).own_waker() == old(self).own_waker(),
    {
        &mut self.woken
    }

    /// Ends the advance: hands out the collected wakeups.
    pub fn into_woken(self) -> (woken: ReadyQueue)
        ensures
            woken@ == self.woken_ids(),
    {
        self.woken
    }
}

/// A resumable computation. `resume` advances it until it finishes or
/// suspends. Before it reports `Poll::Pending` it has left its context's
/// handle with whatever will wake it.
pub trait Resume {
    /// What one advance may lead to: whether a computation in the state
    /// `self`, advanced with the context `cx`, can end in the state `after`
    /// with the context `cx_after` and report `poll`. Each kind of
    /// computation says this of itself; one that says nothing may do
    /// anything.
    open spec fn advances(&self, cx: &Context, after: &Self, cx_after: &Context, poll: Poll) -> bool {
        true
    }

    /// Advances the computation once, as [`Resume::advances`] describes.
    fn resume(&mut self, cx: &mut Context) -> (poll: Poll)
        ensures
            old(self).advances(old(cx), final(self), final(cx), poll),
    ;
}

/// A computation that gives way once: its first advance wakes its own task
/// and suspends, its second finishes.
pub struct YieldNow {
    yielded: bool,
}

impl YieldNow {
    /// Whether the computation has given way already.
    pub closed spec fn has_yielded(&self) -> bool {
        self.yielded
    }

    /// One advance. Before it has given way, the computation queues the
    /// wakeup of its own task and suspends; afterwards it is finished.
    pub fn poll(&mut self, cx: &mut Context) -> (poll: Poll)
        ensures
            final(self).has_yielded(),
            final(cx).own_waker() == old(cx).own_waker(),
            old(self).has_yielded() ==> poll == Poll::Ready && final(cx).woken_ids() == old(
                cx,
            ).woken_ids(),
            !old(self).has_yielded() ==> poll == Poll::Pending && final(cx).woken_ids() == old(
                cx,
            ).woken_ids().push(old(cx).own_waker().target().0),
    {
        if self.yielded {
            return Poll::Ready;
        }
        self.yielded = true;
        let waker = cx.waker();
        waker.wake_by_ref(cx.ready());
        Poll::Pending
    }
}

impl Resume for YieldNow {
    /// An advance before the computation has given way queues the wakeup of
    /// its own task and reports `Pending`; an advance after it reports
    /// `Ready` and queues nothing. Either way the computation has given way
    /// afterwards, and the context keeps its handle.
    open spec fn advances(&self, cx: &Context, after: &Self, cx_after: &Context, poll: Poll) -> bool {
        &&& after.has_yielded()
        &&& cx_after.own_waker() == cx.own_waker()
        &&& self.has_yielded() ==> poll == Poll::Ready && cx_after.woken_ids() == cx.woken_ids()
        &&& !self.has_yielded() ==> poll == Poll::Pending && cx_after.woken_ids()
            == cx.woken_ids().push(cx.own_waker().target().0)
    }

    fn resume(&mut self, cx: &mut Context) -> (poll: Poll)
        ensures
            final(self).has_yielded(),
            final(cx).own_waker() == old(cx).own_waker(),
            old(self).has_yielded() ==> poll == Poll::Ready && final(cx).woken_ids() == old(
                cx,
            ).woken_ids(),
            !old(self).has_yielded() ==> poll == Poll::Pending && final(cx).woken_ids() == old(
                cx,
            ).woken_ids().push(old(cx).own_waker().target().0),
    {
        self.poll(cx)
    }
}

/// A computation that lets every other ready task run before it goes on.
pub fn yield_now() -> (computation: YieldNow)
    ensures
        !computation.has_yielded(),
{
    YieldNow { yielded: false }
}

/// A computation together with the identifier it is scheduled under.
pub struct Task<F: Resume> {
    id: TaskId,
    future: F,
}

impl<F: Resume> Task<F> {
    /// The identifier that the computation is scheduled under.
    pub closed spec fn task_id(&self) -> TaskId {
        self.id
    }

    /// The computation of the task, in its present state.
    pub closed spec fn computation(&self) -> F {
        self.future
    }

    /// Wraps `future` under a freshly issued identifier.
    pub fn new(future: F, source: &mut TaskIdSource) -> (task: Self)
        ensures
            task.task_id().0 == old(source).upcoming(),
            task.computation() == future,
            old(source).upcoming() < u64::MAX ==> final(source).upcoming() == old(source).upcoming() + 1,
            old(source).upcoming() == u64::MAX ==> final(source).upcoming() == 0,
    {
        Task { id: TaskId::new(source), future }
    }

    /// The identifier that the computation is scheduled under.
    pub fn id(&self) -> (id: TaskId)
        ensures
            id == self.task_id(),
    {
        self.id
    }

    /// Advances the computation once, as the computation's own
    /// [`Resume::advances`] describes: what it reports is what the advance
    /// reported, and the computation and the context are as the advance left
    /// them. The identifier stays the same.
    pub fn poll(&mut self, context: &mut Context) -> (poll: Poll)
        ensures
            final(self).task_id() == old(self).task_id(),
            old(self).computation().advances(
                old(context),
                &final(self).computation(),
                final(context),
                poll,
            ),
    {
        self.future.resume(context)
    }
}

} // verus!
