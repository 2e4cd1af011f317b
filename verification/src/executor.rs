//! The scheduler: a ready queue of task identifiers and a table of the tasks
//! that are waiting to be advanced.

use crate::ready_queue::ReadyQueue;
use crate::task::{Context, Poll, Resume, Task, TaskId, Waker};
use std::collections::BTreeMap;
use vstd::prelude::*;

verus! {

/// What one turn of the scheduler did.
#[derive(Debug, Clone, Copy, PartialEq, Eq, Structural)]
pub enum Step {
    /// The ready queue was empty: nothing was done.
    Idle,
    /// The identifier taken from the ready queue names no task in the table:
    /// a wakeup that came once too often. Nothing was advanced.
    Skipped(TaskId),
    /// The task was advanced once and finished; it is gone.
    Completed(TaskId),
    /// The task was advanced once and suspended; it is back in the table.
    Suspended(TaskId),
}

/// What the processor should do after a pass over the ready queue. The caller
/// asks with interrupts disabled, so that no wakeup slips in between the
/// answer and the halt.
#[derive(Debug, Clone, Copy, PartialEq, Eq, Structural)]
pub enum IdleAction {
    /// Nothing is ready: halt until the next interrupt, enabling interrupts
    /// in the same instruction sequence.
    Halt,
    /// Something became ready meanwhile: enable interrupts and go on.
    Continue,
}

/// The table of tasks, by the value of their identifier.
pub type TaskTable<F> = Map<u64, (Task<F>, Waker)>;

/// What one turn makes of the ready queue `ready` and the table `table`,
/// when advancing the task at the head of the queue reports `poll`, leaves
/// the task as `advanced` and wakes the tasks `woken`: the outcome, the new
/// ready queue and the new table.
///
/// With nothing ready, nothing changes. An identifier without a task in the
/// table is taken from the queue and nothing else happens. Otherwise the
/// queue loses its head and gains what was woken; a finished task leaves the
/// table, a suspended one is back in it with the handle it had.
pub open spec fn turn<F: Resume>(
    ready: Seq<u64>,
    table: TaskTable<F>,
    poll: Poll,
    advanced: Task<F>,
    woken: Seq<u64>,
) -> (Step, Seq<u64>, TaskTable<F>) {
    if ready.len() == 0 {
        (Step::Idle, ready, table)
    } else if !table.contains_key(ready[0]) {
        (Step::Skipped(TaskId(ready[0])), ready.drop_first(), table)
    } else if poll == Poll::Ready {
        (Step::Completed(TaskId(ready[0])), ready.drop_first() + woken, table.remove(ready[0]))
    } else {
        (
            Step::Suspended(TaskId(ready[0])),
            ready.drop_first() + woken,
            table.insert(ready[0], (advanced, table[ready[0]].1)),
        )
    }
}

/// What advancing a task led to: what the advance reported, the task as it
/// was left, and the identifiers that were woken meanwhile, oldest first.
pub type Advance<F> = (Poll, Task<F>, Seq<u64>);

/// Whether `outcome` can come of the turn on the ready queue `ready` and the
/// table `table`. Where the head of the queue has a task in the table, the
/// outcome is that of one advance of that task's computation, as the
/// computation's own [`Resume::advances`] describes it, with a context that
/// carries the task's handle and has collected no wakeup yet; the task keeps
/// its identifier. Where no task is advanced, any outcome will do: the turn
/// does not look at it.
pub open spec fn admitted<F: Resume>(ready: Seq<u64>, table: TaskTable<F>, outcome: Advance<F>) -> bool {
    ready.len() > 0 && table.contains_key(ready[0]) ==> exists|cx: Context, cx_after: Context|
        {
            &&& cx.own_waker() == table[ready[0]].1
            &&& cx.woken_ids() == Seq::<u64>::empty()
            &&& cx_after.woken_ids() == outcome.2
            &&& outcome.1.task_id() == TaskId(ready[0])
            &&& #[trigger] table[ready[0]].0.computation().advances(
                &cx,
                &outcome.1.computation(),
                &cx_after,
                outcome.0,
            )
        }
}

/// The ready queue and the table after one turn for each of `outcomes`, in
/// order, starting from `ready` and `table`.
pub open spec fn after_turns<F: Resume>(
    ready: Seq<u64>,
    table: TaskTable<F>,
    outcomes: Seq<Advance<F>>,
) -> (Seq<u64>, TaskTable<F>)
    decreases outcomes.len(),
{
    if outcomes.len() == 0 {
        (ready, table)
    } else {
        let before = after_turns(ready, table, outcomes.drop_last());
        let last = outcomes.last();
        let turned = turn(before.0, before.1, last.0, last.1, last.2);
        (turned.1, turned.2)
    }
}

/// Whether the turns that `outcomes` stand for can be taken one after the
/// other from `ready` and `table`: at each turn something is ready, and the
/// outcome is admitted for the queue and table that the turns before left.
pub open spec fn turns_admitted<F: Resume>(
    ready: Seq<u64>,
    table: TaskTable<F>,
    outcomes: Seq<Advance<F>>,
) -> bool
    decreases outcomes.len(),
{
    outcomes.len() == 0 || {
        let before = after_turns(ready, table, outcomes.drop_last());
        &&& turns_admitted(ready, table, outcomes.drop_last())
        &&& before.0.len() > 0
        &&& admitted(before.0, before.1, outcomes.last())
    }
}

/// The identifiers that the turns take from the ready queue, in order.
pub open spec fn taken<F: Resume>(
    ready: Seq<u64>,
    table: TaskTable<F>,
    outcomes: Seq<Advance<F>>,
) -> Seq<u64>
    decreases outcomes.len(),
{
    if outcomes.len() == 0 {
        Seq::<u64>::empty()
    } else {
        let before = after_turns(ready, table, outcomes.drop_last());
        taken(ready, table, outcomes.drop_last()).push(before.0[0])
    }
}

/// Whether a pass of at most `limit` turns over `ready` and `table` can take
/// the turns `outcomes` and end with `ready_after` and `table_after`: the
/// turns are admitted one after the other, they lead there, and the pass
/// stops short of its limit only on an empty queue.
pub open spec fn pass<F: Resume>(
    ready: Seq<u64>,
    table: TaskTable<F>,
    limit: usize,
    outcomes: Seq<Advance<F>>,
    ready_after: Seq<u64>,
    table_after: TaskTable<F>,
) -> bool {
    &&& outcomes.len() <= limit
    &&& turns_admitted(ready, table, outcomes)
    &&& after_turns(ready, table, outcomes) == (ready_after, table_after)
    &&& outcomes.len() < limit ==> ready_after.len() == 0
}

/// A task whose identifier no turn takes is neither advanced nor removed:
/// after the turns the table holds it exactly if it did before, and
/// unchanged.
pub proof fn lemma_turns_keep_what_they_do_not_take<F: Resume>(
    ready: Seq<u64>,
    table: TaskTable<F>,
    outcomes: Seq<Advance<F>>,
    k: u64,
)
    requires
        turns_admitted(ready, table, outcomes),
        !taken(ready, table, outcomes).contains(k),
    ensures
        after_turns(ready, table, outcomes).1.contains_key(k) == table.contains_key(k),
        table.contains_key(k) ==> after_turns(ready, table, outcomes).1[k] == table[k],
    decreases outcomes.len(),
{
    if outcomes.len() > 0 {
        let earlier = outcomes.drop_last();
        let before = after_turns(ready, table, earlier);
        let ids = taken(ready, table, earlier);
        assert(taken(ready, table, outcomes) == ids.push(before.0[0]));
        assert(ids.push(before.0[0])[ids.len() as int] == before.0[0]);
        assert(before.0[0] != k);
        assert forall|i: int| 0 <= i < ids.len() implies ids[i] != k by {
            assert(ids.push(before.0[0])[i] == ids[i]);
        }
        lemma_turns_keep_what_they_do_not_take(ready, table, earlier, k);
    }
}

/// Whether `id` was queued at the start or woken during one of the turns.
pub open spec fn queued_or_woken<F: Resume>(
    ready: Seq<u64>,
    outcomes: Seq<Advance<F>>,
    id: u64,
) -> bool {
    ready.contains(id) || exists|j: int|
        0 <= j < outcomes.len() && (#[trigger] outcomes[j]).2.contains(id)
}

/// An identifier that the turns take, or that is queued after them, was
/// queued at the start or woken during one of the turns: identifiers do not
/// come from nowhere.
pub proof fn lemma_turns_take_what_was_queued_or_woken<F: Resume>(
    ready: Seq<u64>,
    table: TaskTable<F>,
    outcomes: Seq<Advance<F>>,
    id: u64,
)
    requires
        turns_admitted(ready, table, outcomes),
        taken(ready, table, outcomes).contains(id) || after_turns(ready, table, outcomes).0.contains(
            id,
        ),
    ensures
        queued_or_woken(ready, outcomes, id),
    decreases outcomes.len(),
{
    if outcomes.len() > 0 {
        let earlier = outcomes.drop_last();
        let last = outcomes.last();
        let before = after_turns(ready, table, earlier);
        let ids = taken(ready, table, earlier);
        let after = after_turns(ready, table, outcomes);
        assert(before.0.len() > 0);
        let in_earlier = ids.contains(id) || before.0.contains(id);
        if !in_earlier {
            // then the identifier was woken during the last turn
            if taken(ready, table, outcomes).contains(id) {
                let i = choose|i: int|
                    0 <= i < ids.push(before.0[0]).len() && ids.push(before.0[0])[i] == id;
                if i < ids.len() {
                    assert(ids[i] == id);
                } else {
                    assert(before.0[0] == id);
                }
                assert(false);
            }
            let i = choose|i: int| 0 <= i < after.0.len() && after.0[i] == id;
            let rest = before.0.drop_first();
            if after.0 == rest {
                assert(before.0[i + 1] == id);
                assert(false);
            } else {
                assert(after.0 == rest + last.2);
                if i < rest.len() {
                    assert(before.0[i + 1] == id);
                    assert(false);
                } else {
                    assert(last.2[i - rest.len()] == id);
                    assert(outcomes[outcomes.len() - 1].2.contains(id));
                }
            }
        } else {
            lemma_turns_take_what_was_queued_or_woken(ready, table, earlier, id);
            if !ready.contains(id) {
                let j = choose|j: int| 0 <= j < earlier.len() && (#[trigger] earlier[j]).2.contains(id);
                assert(outcomes[j] == earlier[j]);
            }
        }
    }
}

/// Wakeups for tasks that are gone run nothing: while the table holds no
/// task for any identifier in the queue, each turn only takes an identifier
/// from the queue, so there are no more turns than identifiers, and the
/// table stays as it is.
pub proof fn lemma_turns_on_a_queue_without_tasks<F: Resume>(
    ready: Seq<u64>,
    table: TaskTable<F>,
    outcomes: Seq<Advance<F>>,
)
    requires
        turns_admitted(ready, table, outcomes),
        forall|i: int| 0 <= i < ready.len() ==> !table.contains_key(#[trigger] ready[i]),
    ensures
        outcomes.len() <= ready.len(),
        after_turns(ready, table, outcomes) == (ready.skip(outcomes.len() as int), table),
    decreases outcomes.len(),
{
    if outcomes.len() == 0 {
        assert(ready.skip(0) =~= ready);
    } else {
        lemma_turns_on_a_queue_without_tasks(ready, table, outcomes.drop_last());
        let n = outcomes.len() as int;
        let before = ready.skip(n - 1);
        assert(before.len() > 0);
        assert(before[0] == ready[n - 1]);
        assert(before.drop_first() =~= ready.skip(n));
    }
}

/// A pass over a queue that holds one identifier, of a task whose advance
/// wakes nobody, advances the task exactly once and leaves nothing ready. If
/// the advance reports that the task has finished, the task is out of the
/// table; if it reports that the task has suspended, the task is back under
/// its identifier, as the advance left it and with the handle it had.
pub proof fn lemma_pass_over_one_task_that_wakes_nobody<F: Resume>(
    table: TaskTable<F>,
    id: u64,
    limit: usize,
    outcomes: Seq<Advance<F>>,
    ready_after: Seq<u64>,
    table_after: TaskTable<F>,
)
    requires
        table.contains_key(id),
        limit > 0,
        pass(seq![id], table, limit, outcomes, ready_after, table_after),
        forall|cx: Context, after: F, cx_after: Context, poll: Poll| #[trigger]
            table[id].0.computation().advances(&cx, &after, &cx_after, poll)
                ==> cx_after.woken_ids() == cx.woken_ids(),
    ensures
        outcomes.len() == 1,
        admitted(seq![id], table, outcomes[0]),
        ready_after == Seq::<u64>::empty(),
        outcomes[0].0 == Poll::Ready ==> table_after == table.remove(id),
        outcomes[0].0 == Poll::Pending ==> table_after == table.insert(
            id,
            (outcomes[0].1, table[id].1),
        ),
{
    let ready = seq![id];
    if outcomes.len() == 0 {
        assert(after_turns(ready, table, outcomes) == (ready, table));
    } else {
        let first = outcomes.take(1);
        assert(first.drop_last() =~= Seq::<Advance<F>>::empty());
        lemma_turns_admitted_prefix(ready, table, outcomes, 1);
        let o = first.last();
        assert(o == outcomes[0]);
        assert(after_turns(ready, table, first.drop_last()) == (ready, table));
        assert(admitted(ready, table, o));
        let (cx, cx_after) = choose|cx: Context, cx_after: Context|
            {
                &&& cx.own_waker() == table[ready[0]].1
                &&& cx.woken_ids() == Seq::<u64>::empty()
                &&& cx_after.woken_ids() == o.2
                &&& o.1.task_id() == TaskId(ready[0])
                &&& #[trigger] table[ready[0]].0.computation().advances(
                    &cx,
                    &o.1.computation(),
                    &cx_after,
                    o.0,
                )
            };
        assert(o.2 == Seq::<u64>::empty());
        assert(ready.drop_first() + o.2 =~= Seq::<u64>::empty());
        let one = after_turns(ready, table, first);
        assert(one.0 == Seq::<u64>::empty());
        if outcomes.len() > 1 {
            let two = outcomes.take(2);
            assert(two.drop_last() =~= first);
            lemma_turns_admitted_prefix(ready, table, outcomes, 2);
            assert(false);
        }
        assert(outcomes =~= first);
    }
}

/// The turns before an admitted turn are admitted.
pub proof fn lemma_turns_admitted_prefix<F: Resume>(
    ready: Seq<u64>,
    table: TaskTable<F>,
    outcomes: Seq<Advance<F>>,
    n: int,
)
    requires
        turns_admitted(ready, table, outcomes),
        0 <= n <= outcomes.len(),
    ensures
        turns_admitted(ready, table, outcomes.take(n)),
    decreases outcomes.len(),
{
    if n == outcomes.len() {
        assert(outcomes.take(n) =~= outcomes);
    } else {
        lemma_turns_admitted_prefix(ready, table, outcomes.drop_last(), n);
        assert(outcomes.drop_last().take(n) =~= outcomes.take(n));
    }
}

/// A wakeup for a task that the table does not hold runs nothing: whatever
/// advancing a task would have led to, the turn that takes the identifier
/// only takes it from the queue, and the table stays as it is.
pub proof fn lemma_wakeup_without_task_is_skipped<F: Resume>(
    ready: Seq<u64>,
    table: TaskTable<F>,
    id: u64,
    poll: Poll,
    advanced: Task<F>,
    woken: Seq<u64>,
)
    requires
        !table.contains_key(id),
    ensures
        turn(seq![id] + ready, table, poll, advanced, woken) == (
            Step::Skipped(TaskId(id)),
            ready,
            table,
        ),
{
    assert((seq![id] + ready).drop_first() =~= ready);
}

/// A task that finishes at its first advance is gone after one turn: with
/// nothing else ready, the turn after the spawn reports the task as
/// completed and leaves the table as it was before the spawn, without the
/// task.
pub proof fn lemma_spawned_task_that_completes_leaves_no_trace<F: Resume>(
    table: TaskTable<F>,
    task: Task<F>,
    advanced: Task<F>,
    woken: Seq<u64>,
)
    requires
        !table.contains_key(task.task_id().0),
    ensures
        ({
            let id = task.task_id().0;
            let spawned = table.insert(id, (task, Waker { task_id: task.task_id() }));
            let after = turn(Seq::<u64>::empty().push(id), spawned, Poll::Ready, advanced, woken);
            &&& after.0 == Step::Completed(task.task_id())
            &&& after.1 == woken
            &&& after.2 == table
            &&& !after.2.contains_key(id)
        }),
{
    let id = task.task_id().0;
    let spawned = table.insert(id, (task, Waker { task_id: task.task_id() }));
    assert(spawned.remove(id) =~= table);
    assert(Seq::<u64>::empty().push(id).drop_first() + woken =~= woken);
}

pub struct Executor<F: Resume> {
    task_queue: ReadyQueue,
    tasks: BTreeMap<u64, (Task<F>, Waker)>,
}

impl<F: Resume> Executor<F> {
    /// The identifiers that wait to be run, oldest first.
    pub closed spec fn ready(&self) -> Seq<u64> {
        self.task_queue@
    }

    /// The tasks that are not being advanced, each with the handle that wakes
    /// it, by the value of their identifier.
    pub closed spec fn table(&self) -> Map<u64, (Task<F>, Waker)> {
        self.tasks@
    }

    /// Every task sits under its own identifier, beside a handle that wakes
    /// that same task.
    pub open spec fn wf(&self) -> bool {
        forall|k: u64|
            (#[trigger] self.table().contains_key(k)) ==> self.table()[k].0.task_id().0 == k
                && self.table()[k].1.target().0 == k
    }

    /// A scheduler with no task and nothing ready.
    pub fn new() -> (executor: Self)
        ensures
            executor.wf(),
            executor.ready() == Seq::<u64>::empty(),
            executor.table() == Map::<u64, (Task<F>, Waker)>::empty(),
    {
        Executor { task_queue: ReadyQueue::new(), tasks: BTreeMap::new() }
    }

    /// Takes a new task in: in one step it enters the table, with a fresh
    /// handle bound to its identifier, and its identifier goes to the back of
    /// the ready queue.
    pub fn spawn(&mut self, task: Task<F>)
        requires
            old(self).wf(),
            !old(self).table().contains_key(task.task_id().0),
        ensures
            final(self).wf(),
            final(self).table() == old(self).table().insert(
                task.task_id().0,
                (task, Waker { task_id: task.task_id() }),
            ),
            final(self).ready() == old(self).ready().push(task.task_id().0),
    {
        let id = task.id();
        self.tasks.insert(id.0, (task, Waker::new(id)));
        self.task_queue.push(id.0);
    }

    /// Makes the task that `waker` is bound to ready: its identifier goes to
    /// the back of the ready queue, whether or not the table holds the task.
    pub fn wake(&mut self, waker: &Waker)
        ensures
            final(self).table() == old(self).table(),
            final(self).ready() == old(self).ready().push(waker.target().0),
    {
        waker.wake_by_ref(&mut self.task_queue);
    }

    /// Whether the table holds the task `id`.
    pub fn contains(&self, id: TaskId) -> (b: bool)
        ensures
            b == self.table().contains_key(id.0),
    {
        self.tasks.contains_key(&id.0)
    }

    /// The number of tasks in the table.
    pub fn task_count(&self) -> (n: usize)
        ensures
            n == self.table().len(),
    {
        self.tasks.len()
    }

    /// Puts a task that was advanced back where it belongs, given what the
    /// advance reported. A finished task is dropped; a suspended one returns
    /// to the table under its identifier with its handle. The wakeups that
    /// the advance collected go to the back of the ready queue, in order.
    pub fn settle(&mut self, task: Task<F>, waker: Waker, poll: Poll, cx: Context) -> (step: Step)
        requires
            old(self).wf(),
            waker.target() == task.task_id(),
        ensures
            final(self).wf(),
            final(self).ready() == old(self).ready() + cx.woken_ids(),
            poll == Poll::Ready ==> step == Step::Completed(task.task_id())
                && final(self).table() == old(self).table(),
            poll == Poll::Pending ==> step == Step::Suspended(task.task_id())
                && final(self).table() == old(self).table().insert(task.task_id().0, (task, waker)),
    {
        let id = task.id();
        let mut woken = cx.into_woken();
        self.task_queue.append(&mut woken);
        assert(self.table() == old(self).table());
        match poll {
            Poll::Ready => Step::Completed(id),
            Poll::Pending => {
                self.tasks.insert(id.0, (task, waker));
                proof {
                    assert forall|k: u64| #[trigger]
                        self.table().contains_key(k) implies self.table()[k].0.task_id().0 == k
                        && self.table()[k].1.target().0 == k by {
                        if k != id.0 {
                            assert(old(self).table().contains_key(k));
                        }
                    }
                }
                Step::Suspended(id)
            },
        }
    }

    /// One turn: takes the oldest ready identifier and, if the table holds
    /// its task, takes the task out, advances it once and settles it.
    ///
    /// The task is advanced with a fresh context that carries its handle,
    /// and what the turn makes of the advance is [`turn`] of what the
    /// computation's own [`Resume::advances`] admits. Whatever the
    /// computation does, the ready queue loses exactly its head and gains
    /// only at its back, no task but the one advanced is touched, and that
    /// one is either gone or back under its identifier with the handle it
    /// had.
    pub fn step(&mut self) -> (step: Step)
        requires
            old(self).wf(),
        ensures
            final(self).wf(),
            old(self).ready().len() == 0 ==> step == Step::Idle && final(self).ready() == old(
                self,
            ).ready() && final(self).table() == old(self).table(),
            old(self).ready().len() > 0 && !old(self).table().contains_key(old(self).ready()[0])
                ==> step == Step::Skipped(TaskId(old(self).ready()[0])) && final(self).ready()
                == old(self).ready().drop_first() && final(self).table() == old(self).table(),
            old(self).ready().len() > 0 && old(self).table().contains_key(old(self).ready()[0])
                ==> {
                let id = old(self).ready()[0];
                &&& old(self).ready().drop_first().is_prefix_of(final(self).ready())
                &&& step == Step::Completed(TaskId(id)) || step == Step::Suspended(TaskId(id))
                &&& step == Step::Completed(TaskId(id)) ==> final(self).table() == old(
                    self,
                ).table().remove(id)
                &&& step == Step::Suspended(TaskId(id)) ==> {
                    &&& final(self).table().dom() == old(self).table().dom()
                    &&& final(self).table()[id].1 == old(self).table()[id].1
                    &&& final(self).table().remove(id) == old(self).table().remove(id)
                }
            },
            exists|outcome: Advance<F>|
                {
                    &&& #[trigger] admitted(old(self).ready(), old(self).table(), outcome)
                    &&& (step, final(self).ready(), final(self).table()) == turn(
                        old(self).ready(),
                        old(self).table(),
                        outcome.0,
                        outcome.1,
                        outcome.2,
                    )
                },
    {
        let id = match self.task_queue.pop() {
            None => {
                assert(self.table() == old(self).table());
                proof {
                    let any: Advance<F> = (Poll::Ready, arbitrary::<Task<F>>(), Seq::<u64>::empty());
                    assert(admitted(old(self).ready(), old(self).table(), any));
                    assert((Step::Idle, self.ready(), self.table()) == turn(
                        old(self).ready(),
                        old(self).table(),
                        any.0,
                        any.1,
                        any.2,
                    ));
                }
                return Step::Idle;
            },
            Some(id) => id,
        };
        let (mut task, waker) = match self.tasks.remove(&id) {
            None => {
                assert(self.table() =~= old(self).table());
                proof {
                    let any: Advance<F> = (Poll::Ready, arbitrary::<Task<F>>(), Seq::<u64>::empty());
                    assert(admitted(old(self).ready(), old(self).table(), any));
                    assert((Step::Skipped(TaskId(id)), self.ready(), self.table()) == turn(
                        old(self).ready(),
                        old(self).table(),
                        any.0,
                        any.1,
                        any.2,
                    ));
                }
                return Step::Skipped(TaskId(id));
            },
            Some(entry) => entry,
        };
        let ghost mid = self.table();
        proof {
            assert(mid == old(self).table().remove(id));
            assert forall|k: u64| #[trigger] mid.contains_key(k) implies mid[k].0.task_id().0 == k
                && mid[k].1.target().0 == k by {
                assert(old(self).table().contains_key(k));
            }
        }
        let ghost entered = task;
        let mut cx = Context::from_waker(waker);
        let ghost handed = cx;
        let poll = task.poll(&mut cx);
        let ghost advanced = task;
        let ghost returned = cx;
        let ghost woken = cx.woken_ids();
        let step = self.settle(task, waker, poll, cx);
        proof {
            assert(mid == old(self).table().remove(id));
            if poll == Poll::Pending {
                assert(final(self).table().dom() =~= old(self).table().dom());
                assert(final(self).table().remove(id) =~= old(self).table().remove(id));
                assert(final(self).table() =~= old(self).table().insert(
                    id,
                    (advanced, old(self).table()[id].1),
                ));
            }
            let outcome: Advance<F> = (poll, advanced, woken);
            assert(entered == old(self).table()[id].0 && waker == old(self).table()[id].1);
            assert(advanced.task_id() == TaskId(id));
            assert(entered.computation().advances(
                &handed,
                &advanced.computation(),
                &returned,
                poll,
            ));
            assert(old(self).ready()[0] == id);
            assert({
                &&& handed.own_waker() == old(self).table()[old(self).ready()[0]].1
                &&& handed.woken_ids() == Seq::<u64>::empty()
                &&& returned.woken_ids() == outcome.2
                &&& outcome.1.task_id() == TaskId(old(self).ready()[0])
                &&& old(self).table()[old(self).ready()[0]].0.computation().advances(
                    &handed,
                    &outcome.1.computation(),
                    &returned,
                    outcome.0,
                )
            });
            assert(admitted(old(self).ready(), old(self).table(), outcome));
            assert((step, final(self).ready(), final(self).table()) == turn(
                old(self).ready(),
                old(self).table(),
                outcome.0,
                outcome.1,
                outcome.2,
            ));
        }
        step
    }

    /// A pass over the ready queue: takes turns until the queue is empty or
    /// `limit` turns were taken, and returns the number of turns taken.
    ///
    /// The pass is [`pass`]: one admitted turn after the other, each on what
    /// the turn before left, so that every identifier taken from the queue
    /// leads to exactly one advance of its task if the table holds it, and
    /// to none if it does not. Tasks only leave the table during a pass, and
    /// those that stay keep their handles. The identifiers taken are the
    /// first ones of the old queue followed by the wakeups that came in
    /// during the pass; what was not taken is still queued, in order.
    pub fn run_ready_tasks(&mut self, limit: usize) -> (turns: usize)
        requires
            old(self).wf(),
        ensures
            final(self).wf(),
            turns <= limit,
            turns < limit ==> final(self).ready().len() == 0,
            old(self).ready().len() == 0 || limit == 0 ==> turns == 0 && final(self).ready() == old(
                self,
            ).ready() && final(self).table() == old(self).table(),
            old(self).ready().len() > 0 && limit > 0 ==> turns > 0,
            final(self).table().dom().subset_of(old(self).table().dom()),
            forall|k: u64| #[trigger]
                final(self).table().contains_key(k) ==> final(self).table()[k].1 == old(
                    self,
                ).table()[k].1,
            exists|woken: Seq<u64>|
                turns <= (old(self).ready() + woken).len() && final(self).ready() == (old(
                    self,
                ).ready() + woken).skip(turns as int),
            exists|outcomes: Seq<Advance<F>>|
                outcomes.len() == turns && #[trigger] pass(
                    old(self).ready(),
                    old(self).table(),
                    limit,
                    outcomes,
                    final(self).ready(),
                    final(self).table(),
                ),
    {
        let mut turns: usize = 0;
        let ghost woken: Seq<u64> = Seq::empty();
        let ghost outcomes: Seq<Advance<F>> = Seq::empty();
        proof {
            assert((old(self).ready() + woken).skip(0) =~= old(self).ready());
        }
        while turns < limit
            invariant
                self.wf(),
                turns <= limit,
                turns > 0 ==> old(self).ready().len() > 0,
                turns == 0 ==> self.ready() == old(self).ready() && self.table() == old(
                    self,
                ).table(),
                self.table().dom().subset_of(old(self).table().dom()),
                forall|k: u64| #[trigger]
                    self.table().contains_key(k) ==> self.table()[k].1 == old(self).table()[k].1,
                turns <= (old(self).ready() + woken).len(),
                self.ready() == (old(self).ready() + woken).skip(turns as int),
                outcomes.len() == turns,
                turns_admitted(old(self).ready(), old(self).table(), outcomes),
                after_turns(old(self).ready(), old(self).table(), outcomes) == (
                    self.ready(),
                    self.table(),
                ),
            ensures
                turns < limit ==> self.ready().len() == 0,
            decreases limit - turns,
        {
            let ghost before = self.ready();
            let ghost table_before = self.table();
            let step = self.step();
            match step {
                Step::Idle => {
                    break ;
                },
                _ => {},
            }
            proof {
                let outcome = choose|outcome: Advance<F>|
                    {
                        &&& #[trigger] admitted(before, table_before, outcome)
                        &&& (step, self.ready(), self.table()) == turn(
                            before,
                            table_before,
                            outcome.0,
                            outcome.1,
                            outcome.2,
                        )
                    };
                assert(before.len() > 0);
                assert(outcomes.push(outcome).drop_last() =~= outcomes);
                outcomes = outcomes.push(outcome);
            }
            proof {
                let rest = before.drop_first();
                assert(rest.is_prefix_of(self.ready()));
                let gained = self.ready().skip(rest.len() as int);
                assert(self.ready() =~= rest + gained);
                let all = old(self).ready() + woken;
                assert((all + gained).skip(turns as int + 1) =~= rest + gained);
                assert(old(self).ready() + (woken + gained) =~= all + gained);
                woken = woken + gained;
                assert forall|k: u64| #[trigger] self.table().contains_key(k) implies self.table()[k].1
                    == old(self).table()[k].1 && old(self).table().contains_key(k) by {
                    assert(table_before.dom().contains(k) || table_before.remove(before[0]).contains_key(k));
                    if k != before[0] {
                        assert(self.table().remove(before[0]).contains_key(k));
                        assert(table_before.remove(before[0]).contains_key(k));
                    }
                }
            }
            turns = turns + 1;
        }
        proof {
            assert(pass(
                old(self).ready(),
                old(self).table(),
                limit,
                outcomes,
                self.ready(),
                self.table(),
            ));
        }
        turns
    }

    /// Whether nothing is ready.
    pub fn is_idle(&self) -> (b: bool)
        ensures
            b == (self.ready().len() == 0),
    {
        self.task_queue.is_empty()
    }

    /// Decides what to do once a pass is over: halt if the ready queue is
    /// empty, go on if it is not.
    pub fn sleep_if_idle(&self) -> (action: IdleAction)
        ensures
            action == IdleAction::Halt <==> self.ready().len() == 0,
            action == IdleAction::Continue <==> self.ready().len() > 0,
    {
        if self.task_queue.is_empty() {
            IdleAction::Halt
        } else {
            IdleAction::Continue
        }
    }
}

/// Hands a new task to the scheduler: see [`Executor::spawn`].
pub fn spawn<F: Resume>(executor: &mut Executor<F>, task: Task<F>)
    requires
        old(executor).wf(),
        !old(executor).table().contains_key(task.task_id().0),
    ensures
        final(executor).wf(),
        final(executor).table() == old(executor).table().insert(
            task.task_id().0,
            (task, Waker { task_id: task.task_id() }),
        ),
        final(executor).ready() == old(executor).ready().push(task.task_id().0),
{
    executor.spawn(task);
}

/// One round of the scheduler's loop: a pass over the ready queue of at most
/// `limit` turns, as [`Executor::run_ready_tasks`] makes it, then the
/// decision whether to halt. The caller performs the action and comes back
/// for the next round, for ever.
pub fn run<F: Resume>(executor: &mut Executor<F>, limit: usize) -> (action: IdleAction)
    requires
        old(executor).wf(),
    ensures
        final(executor).wf(),
        action == IdleAction::Halt <==> final(executor).ready().len() == 0,
        action == IdleAction::Continue <==> final(executor).ready().len() > 0,
        limit == 0 || old(executor).ready().len() == 0 ==> final(executor).ready() == old(
            executor,
        ).ready() && final(executor).table() == old(executor).table(),
        final(executor).table().dom().subset_of(old(executor).table().dom()),
        forall|k: u64| #[trigger]
            final(executor).table().contains_key(k) ==> final(executor).table()[k].1 == old(
                executor,
            ).table()[k].1,
        old(executor).ready().len() > 0 && limit > 0 ==> exists|turns: usize, woken: Seq<u64>|
            0 < turns <= limit && turns <= (old(executor).ready() + woken).len() && final(executor).ready() == #[trigger] (old(executor).ready() + woken).skip(turns as int) && (turns
                < limit ==> final(executor).ready().len() == 0),
        exists|outcomes: Seq<Advance<F>>|
            {
                &&& #[trigger] pass(
                    old(executor).ready(),
                    old(executor).table(),
                    limit,
                    outcomes,
                    final(executor).ready(),
                    final(executor).table(),
                )
                &&& old(executor).ready().len() > 0 && limit > 0 ==> outcomes.len() > 0
            },
{
    let turns = executor.run_ready_tasks(limit);
    proof {
        let outcomes = choose|outcomes: Seq<Advance<F>>|
            outcomes.len() == turns && #[trigger] pass(
                old(executor).ready(),
                old(executor).table(),
                limit,
                outcomes,
                executor.ready(),
                executor.table(),
            );
        assert(pass(
            old(executor).ready(),
            old(executor).table(),
            limit,
            outcomes,
            executor.ready(),
            executor.table(),
        ) && (old(executor).ready().len() > 0 && limit > 0 ==> outcomes.len() > 0));
        if old(executor).ready().len() > 0 && limit > 0 {
            let woken = choose|woken: Seq<u64>|
                turns <= (old(executor).ready() + woken).len() && executor.ready() == (old(
                    executor,
                ).ready() + woken).skip(turns as int);
            assert(0 < turns <= limit && turns <= (old(executor).ready() + woken).len()
                && executor.ready() == (old(executor).ready() + woken).skip(turns as int) && (
            turns < limit ==> executor.ready().len() == 0));
        }
    }
    executor.sleep_if_idle()
}

} // verus!
