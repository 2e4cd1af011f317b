//! The ready queue: identifiers of tasks that are eligible to run, oldest first.

use crossbeam_queue::SegQueue;
use vstd::prelude::*;

verus! {

/// `crossbeam_queue::SegQueue`, an unbounded queue. Nothing is known of a
/// value of it but what the functions below state.
#[verifier::external_type_specification]
#[verifier::external_body]
#[verifier::reject_recursive_types(T)]
pub struct ExSegQueue<T>(SegQueue<T>);

/// The identifiers held by a queue, head first. The functions below reach
/// the queue through an exclusive reference or own it, so that nobody else
/// pushes or pops in between.
pub uninterp spec fn queued_ids(q: SegQueue<u64>) -> Seq<u64>;

/// `SegQueue::new`: the new queue holds nothing.
#[verifier::external_body]
pub(crate) fn queue_new() -> (q: SegQueue<u64>)
    ensures
        queued_ids(q) == Seq::<u64>::empty(),
{
    SegQueue::new()
}

/// `SegQueue::push`: the element goes to the tail; nothing else moves.
#[verifier::external_body]
pub(crate) fn queue_push(q: &mut SegQueue<u64>, id: u64)
    ensures
        queued_ids(*final(q)) == queued_ids(*old(q)).push(id),
{
    q.push(id)
}

/// `SegQueue::pop`: hands out the head element and removes it; `None` on an
/// empty queue, which stays as it is.
#[verifier::external_body]
pub(crate) fn queue_pop(q: &mut SegQueue<u64>) -> (r: Option<u64>)
    ensures
        queued_ids(*old(q)).len() == 0 ==> r.is_none() && queued_ids(*final(q)) == queued_ids(
            *old(q),
        ),
        queued_ids(*old(q)).len() > 0 ==> r == Some(queued_ids(*old(q))[0])
            && queued_ids(*final(q)) == queued_ids(*old(q)).drop_first(),
{
    q.pop()
}

/// `SegQueue::is_empty`: whether the queue holds no element.
#[verifier::external_body]
pub(crate) fn queue_is_empty(q: &SegQueue<u64>) -> (b: bool)
    ensures
        b == (queued_ids(*q).len() == 0),
{
    q.is_empty()
}

/// The queue of task identifiers that are eligible to run. Waking a task
/// appends its identifier; the scheduler takes identifiers from the head.
pub struct ReadyQueue {
    queue: SegQueue<u64>,
}

impl View for ReadyQueue {
    type V = Seq<u64>;

    closed spec fn view(&self) -> Seq<u64> {
        queued_ids(self.queue)
    }
}

impl ReadyQueue {
    /// An empty queue.
    pub fn new() -> (q: Self)
        ensures
            q@ == Seq::<u64>::empty(),
    {
        ReadyQueue { queue: queue_new() }
    }

    /// Appends `id` behind everything already queued.
    pub fn push(&mut self, id: u64)
        ensures
            final(self)@ == old(self)@.push(id),
    {
        queue_push(&mut self.queue, id);
    }

    /// Takes the oldest identifier, or `None` when nothing is queued.
    pub fn pop(&mut self) -> (r: Option<u64>)
        ensures
            old(self)@.len() == 0 ==> r.is_none() && final(self)@ == old(self)@,
            old(self)@.len() > 0 ==> r == Some(old(self)@[0]) && final(self)@ == old(self)@.drop_first(),
    {
        queue_pop(&mut self.queue)
    }

    /// Whether no identifier is queued.
    pub fn is_empty(&self) -> (b: bool)
        ensures
            b == (self@.len() == 0),
    {
        queue_is_empty(&self.queue)
    }

    /// Moves every identifier of `other` behind those of `self`, keeping
    /// their order, and leaves `other` empty.
    pub fn append(&mut self, other: &mut ReadyQueue)
        ensures
            final(self)@ == old(self)@ + old(other)@,
            final(other)@ == Seq::<u64>::empty(),
    {
        let ghost moved: Seq<u64> = Seq::empty();
        loop
            invariant
                self@ == old(self)@ + moved,
                moved + other@ == old(other)@,
            ensures
                other@.len() == 0,
            decreases other@.len(),
        {
            match other.pop() {
                Some(id) => {
                    proof {
                        let before = moved + seq![id] + other@;
                        assert(before =~= old(other)@) by {
                            assert(seq![id] + other@ =~= old(other)@.subrange(moved.len() as int, old(other)@.len() as int)) ;
                        }
                        assert((old(self)@ + moved).push(id) =~= old(self)@ + moved.push(id));
                        moved = moved.push(id);
                        assert(moved + other@ =~= before);
                    }
                    self.push(id);
                },
                None => {
                    break ;
                },
            }
        }
        proof {
            assert(moved =~= old(other)@);
            assert(other@ =~= Seq::<u64>::empty());
        }
    }
}

} // verus!
