//! The short-task queue: continuations that run as soon as the engine is
//! free, strictly in the order in which they were posted.
//!
//! The queue only keeps the order. Draining it, job by job and with the
//! jobs that are posted meanwhile, is the driver's work: a driver with no
//! delayed tasks does nothing else.

use std::collections::VecDeque;
use vstd::prelude::*;

verus! {

/// A first-in, first-out queue of jobs. `C` is whatever the host uses to
/// refer to a callable of the engine; the queue never looks inside it.
pub struct MicrotaskQueue<C> {
    queue: VecDeque<C>,
}

impl<C> View for MicrotaskQueue<C> {
    type V = Seq<C>;

    /// The jobs that wait, oldest first.
    closed spec fn view(&self) -> Seq<C> {
        self.queue@
    }
}

impl<C> MicrotaskQueue<C> {
    /// A queue with no job in it.
    pub fn new() -> (queue: MicrotaskQueue<C>)
        ensures
            queue@ == Seq::<C>::empty(),
    {
        MicrotaskQueue { queue: VecDeque::new() }
    }

    /// Puts `job` behind every job that already waits.
    pub fn enqueue(&mut self, job: C)
        ensures
            final(self)@ == old(self)@.push(job),
    {
        self.queue.push_back(job);
    }

    /// Takes the oldest job out of the queue, if there is one.
    pub fn dequeue(&mut self) -> (job: Option<C>)
        ensures
            old(self)@.len() == 0 ==> job is None && final(self)@ == old(self)@,
            old(self)@.len() > 0 ==> job == Some(old(self)@[0]) && final(self)@ == old(self)@.drop_first(),
    {
        let job = self.queue.pop_front();
        proof {
            if old(self)@.len() > 0 {
                assert(final(self)@ =~= old(self)@.drop_first());
            }
        }
        job
    }

    /// Whether no job waits.
    pub fn is_empty(&self) -> (empty: bool)
        ensures
            empty == (self@.len() == 0),
    {
        self.queue.len() == 0
    }

    /// How many jobs wait.
    pub fn len(&self) -> (n: usize)
        ensures
            n == self@.len(),
    {
        self.queue.len()
    }
}

/// The queue hands jobs out in the order in which they came in: after the
/// jobs of `posted` were enqueued one by one behind `waiting`, the first
/// `waiting.len() + posted.len()` jobs handed out are those of `waiting`
/// followed by those of `posted`, each exactly once.
pub proof fn lemma_first_in_first_out<C>(waiting: Seq<C>, posted: Seq<C>, k: int)
    requires
        0 <= k < waiting.len() + posted.len(),
    ensures
        enqueue_all(waiting, posted).len() == waiting.len() + posted.len(),
        k < waiting.len() ==> dequeued(enqueue_all(waiting, posted), k) == waiting[k],
        k >= waiting.len() ==> dequeued(enqueue_all(waiting, posted), k) == posted[k - waiting.len()],
{
    lemma_enqueue_all(waiting, posted);
    lemma_dequeued(waiting + posted, k);
}

/// The queue after each job of `posted` was enqueued in turn.
pub open spec fn enqueue_all<C>(waiting: Seq<C>, posted: Seq<C>) -> Seq<C>
    decreases posted.len(),
{
    if posted.len() == 0 {
        waiting
    } else {
        enqueue_all(waiting, posted.drop_last()).push(posted.last())
    }
}

/// The job that the `k + 1`-th `dequeue` hands out.
pub open spec fn dequeued<C>(waiting: Seq<C>, k: int) -> C
    recommends
        0 <= k < waiting.len(),
    decreases k,
{
    if k <= 0 {
        waiting[0]
    } else {
        dequeued(waiting.drop_first(), k - 1)
    }
}

proof fn lemma_enqueue_all<C>(waiting: Seq<C>, posted: Seq<C>)
    ensures
        enqueue_all(waiting, posted) == waiting + posted,
    decreases posted.len(),
{
    if posted.len() == 0 {
        assert(waiting + posted =~= waiting);
    } else {
        lemma_enqueue_all(waiting, posted.drop_last());
        assert((waiting + posted.drop_last()).push(posted.last()) =~= waiting + posted);
    }
}

proof fn lemma_dequeued<C>(waiting: Seq<C>, k: int)
    requires
        0 <= k < waiting.len(),
    ensures
        dequeued(waiting, k) == waiting[k],
    decreases k,
{
    if k > 0 {
        lemma_dequeued(waiting.drop_first(), k - 1);
    }
}

} // verus!
