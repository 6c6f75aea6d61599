//! Whole passes of the driver, and what holds of every one of them.
//!
//! A pass is told as the host lives it: the driver is asked for an action,
//! the host makes the call, the task body posts and cancels what it likes,
//! the call returns, and the driver is asked again. The theorems of this
//! file hold whatever the task bodies do.

use crate::event_loop::macrotasks::{
    earliest, is_earliest, lemma_next_due_is_first_past_now, runs_no_later, Macrotask, Registry, TaskId,
};
use crate::event_loop::{Action, Event, Post, Schedule};
use vstd::prelude::*;

verus! {

/// One call as the driver sees it: what the task body posted while it ran,
/// in order, whether it left an exception pending, and the instant at which
/// it returned.
pub struct Turn<C> {
    pub posts: Seq<Post<C>>,
    pub exception: bool,
    pub now: u64,
}

/// The jobs among `posts`, in order.
pub open spec fn jobs_in<C>(posts: Seq<Post<C>>) -> Seq<C>
    decreases posts.len(),
{
    if posts.len() == 0 {
        Seq::empty()
    } else {
        match posts.last() {
            Post::Job(job) => jobs_in(posts.drop_last()).push(job),
            _ => jobs_in(posts.drop_last()),
        }
    }
}

/// Whether none of `posts` registers a delayed task.
pub open spec fn registers_nothing<C>(posts: Seq<Post<C>>) -> bool {
    forall|k: int| 0 <= k < posts.len() ==> !((#[trigger] posts[k]) is Task)
}

/// Whether `task` is gone once it has run, whenever that is.
pub open spec fn runs_once<C>(task: Macrotask<C>) -> bool {
    match task {
        Macrotask::Timer(timer) => !timer.repeats(),
        Macrotask::OneShot(_) => true,
    }
}

impl<C> Registry<C> {
    /// Whether `id` was issued and names no task any more. Such an
    /// identifier is never issued again.
    pub open spec fn spent(self, id: TaskId) -> bool {
        id < self.issued && !self.knows(id)
    }
}

impl<C> Schedule<C> {
    /// The state after each of `posts` was carried out in turn.
    pub open spec fn posted_all(self, posts: Seq<Post<C>>) -> Schedule<C>
        decreases posts.len(),
    {
        if posts.len() == 0 {
            self
        } else {
            self.posted_all(posts.drop_last()).posted(posts.last())
        }
    }
}

/// The state of the driver, and the action it asks for, after a pass that
/// was opened in state `start` by `event` at instant `now` has gone through
/// `turns`. Once the driver has said that the pass is over, no further call
/// is made, so later turns change nothing.
pub open spec fn pass<C>(start: Schedule<C>, event: Event, now: u64, turns: Seq<Turn<C>>) -> (
    Schedule<C>,
    Action<C>,
)
    decreases turns.len(),
{
    if turns.len() == 0 {
        start.step(event, now)
    } else {
        let before = pass(start, event, now, turns.drop_last());
        if before.1 is Done {
            before
        } else {
            before.0.posted_all(turns.last().posts).step(
                Event::Returned { exception: turns.last().exception },
                turns.last().now,
            )
        }
    }
}

/// The jobs that the driver has asked the host to call in the pass so far,
/// in order.
pub open spec fn jobs_called<C>(start: Schedule<C>, event: Event, now: u64, turns: Seq<Turn<C>>) -> Seq<C>
    decreases turns.len(),
{
    if turns.len() == 0 {
        match pass(start, event, now, turns).1 {
            Action::Job(job) => seq![job],
            _ => Seq::empty(),
        }
    } else {
        let earlier = jobs_called(start, event, now, turns.drop_last());
        if pass(start, event, now, turns.drop_last()).1 is Done {
            earlier
        } else {
            match pass(start, event, now, turns).1 {
                Action::Job(job) => earlier.push(job),
                _ => earlier,
            }
        }
    }
}

/// The jobs that the task bodies of the pass have posted so far, in order.
pub open spec fn jobs_posted<C>(start: Schedule<C>, event: Event, now: u64, turns: Seq<Turn<C>>) -> Seq<C>
    decreases turns.len(),
{
    if turns.len() == 0 {
        Seq::empty()
    } else {
        let earlier = jobs_posted(start, event, now, turns.drop_last());
        if pass(start, event, now, turns.drop_last()).1 is Done {
            earlier
        } else {
            earlier + jobs_in(turns.last().posts)
        }
    }
}

/// The delayed tasks that the driver has asked the host to call in the pass
/// so far, in order, each with its identifier and as it was when it was
/// chosen.
pub open spec fn tasks_called<C>(start: Schedule<C>, event: Event, now: u64, turns: Seq<Turn<C>>) -> Seq<
    (TaskId, Macrotask<C>),
>
    decreases turns.len(),
{
    if turns.len() == 0 {
        match pass(start, event, now, turns) {
            (state, Action::Task(_, _)) => seq![state.tasks->0.running->0],
            _ => Seq::empty(),
        }
    } else {
        let earlier = tasks_called(start, event, now, turns.drop_last());
        if pass(start, event, now, turns.drop_last()).1 is Done {
            earlier
        } else {
            match pass(start, event, now, turns) {
                (state, Action::Task(_, _)) => earlier.push(state.tasks->0.running->0),
                _ => earlier,
            }
        }
    }
}

/// Posting keeps a valid schedule valid.
pub proof fn lemma_posted_valid<C>(state: Schedule<C>, posts: Seq<Post<C>>)
    requires
        state.valid(),
    ensures
        state.posted_all(posts).valid(),
        state.posted_all(posts).tasks is Some == state.tasks is Some,
        state.posted_all(posts).jobs is Some == state.jobs is Some,
    decreases posts.len(),
{
    if posts.len() > 0 {
        lemma_posted_valid(state, posts.drop_last());
    }
}

/// A decision of the driver keeps a valid schedule valid, and leaves no
/// delayed task running unless it has just asked for one to be called.
pub proof fn lemma_step_valid<C>(state: Schedule<C>, event: Event, now: u64)
    requires
        state.valid(),
    ensures
        state.step(event, now).0.valid(),
        state.step(event, now).0.tasks is Some == state.tasks is Some,
        state.step(event, now).0.jobs is Some == state.jobs is Some,
        state.step(event, now).0.tasks matches Some(registry) ==> (registry.running is Some
            == state.step(event, now).1 is Task),
{
    let settled = state.settled(event, now);
    if settled.tasks is Some && earliest(settled.tasks->0.pending) is Some {
        lemma_earliest(settled.tasks->0.pending);
    }
}

/// A pass keeps a valid schedule valid.
pub proof fn lemma_pass_valid<C>(start: Schedule<C>, event: Event, now: u64, turns: Seq<Turn<C>>)
    requires
        start.valid(),
    ensures
        pass(start, event, now, turns).0.valid(),
        pass(start, event, now, turns).0.tasks is Some == start.tasks is Some,
        pass(start, event, now, turns).0.jobs is Some == start.jobs is Some,
    decreases turns.len(),
{
    if turns.len() == 0 {
        lemma_step_valid(start, event, now);
    } else {
        lemma_pass_valid(start, event, now, turns.drop_last());
        let before = pass(start, event, now, turns.drop_last());
        if !(before.1 is Done) {
            lemma_posted_valid(before.0, turns.last().posts);
            lemma_step_valid(
                before.0.posted_all(turns.last().posts),
                Event::Returned { exception: turns.last().exception },
                turns.last().now,
            );
        }
    }
}

/// Where anything is pending, `earliest` names the pending task that runs
/// no later than any other.
pub proof fn lemma_earliest<C>(pending: Map<TaskId, Macrotask<C>>)
    requires
        earliest(pending) is Some,
    ensures
        is_earliest(pending, earliest(pending)->0),
{
}

/// Short tasks run first, and in the order of the queue. Whenever the
/// driver decides, it asks for the oldest short task if there is one; it
/// chooses a delayed task, or ends the pass, only when no short task waits.
pub proof fn lemma_short_tasks_first<C>(state: Schedule<C>, event: Event, now: u64)
    ensures
        match state.step(event, now).1 {
            Action::Job(job) => state.jobs matches Some(jobs) && jobs.len() > 0 && job == jobs[0]
                && state.step(event, now).0.jobs == Some(jobs.drop_first()),
            _ => (state.jobs matches Some(jobs) ==> jobs.len() == 0) && state.step(event, now).0.jobs
                == state.jobs,
        },
{
}

/// The delayed task that the driver chooses is the earliest of those
/// pending: no pending task has an earlier due time, nor the same due time
/// and a smaller identifier.
pub proof fn lemma_earliest_task_first<C>(state: Schedule<C>, event: Event, now: u64, other: TaskId)
    requires
        state.step(event, now).1 is Task,
        state.settled(event, now).tasks->0.pending.contains_key(other),
    ensures
        state.step(event, now).1 matches Action::Task(id, callback) && ({
            let pending = state.settled(event, now).tasks->0.pending;
            &&& pending.contains_key(id)
            &&& callback == pending[id].spec_callback()
            &&& runs_no_later(id, pending[id], other, pending[other])
            &&& state.step(event, now).0.tasks->0.running == Some((id, pending[id]))
            &&& state.step(event, now).0.tasks->0.pending == pending.remove(id)
        }),
{
    lemma_earliest(state.settled(event, now).tasks->0.pending);
}

/// With neither queue scheduled, a pass is over as soon as it begins: the
/// driver asks for no call and reports success.
pub proof fn lemma_nothing_scheduled<C>(start: Schedule<C>, now: u64, turns: Seq<Turn<C>>)
    requires
        start.jobs is None,
        start.tasks is None,
    ensures
        pass(start, Event::Start, now, turns) == (Schedule { failed: false, ..start }, Action::<C>::Done(Ok(()))),
        jobs_called(start, Event::Start, now, turns) == Seq::<C>::empty(),
        tasks_called(start, Event::Start, now, turns) == Seq::<(TaskId, Macrotask<C>)>::empty(),
    decreases turns.len(),
{
    if turns.len() > 0 {
        lemma_nothing_scheduled(start, now, turns.drop_last());
    }
}

proof fn lemma_posted_jobs<C>(state: Schedule<C>, posts: Seq<Post<C>>)
    requires
        state.jobs is Some,
    ensures
        state.posted_all(posts).jobs == Some(state.jobs->0 + jobs_in(posts)),
    decreases posts.len(),
{
    if posts.len() == 0 {
        assert(state.jobs->0 + jobs_in(posts) =~= state.jobs->0);
    } else {
        lemma_posted_jobs(state, posts.drop_last());
        let before = state.posted_all(posts.drop_last());
        match posts.last() {
            Post::Job(job) => {
                assert((state.jobs->0 + jobs_in(posts.drop_last())).push(job) =~= state.jobs->0 + jobs_in(
                    posts,
                ));
            },
            _ => {},
        }
    }
}

/// Short tasks run in the order in which they were posted, each once. At
/// every point of every pass, the jobs called so far, followed by the jobs
/// that still wait, are the jobs that waited when the pass began, followed
/// by the jobs that the task bodies have posted since, in order.
pub proof fn lemma_jobs_first_in_first_out<C>(start: Schedule<C>, event: Event, now: u64, turns: Seq<Turn<C>>)
    requires
        start.jobs is Some,
    ensures
        pass(start, event, now, turns).0.jobs is Some,
        jobs_called(start, event, now, turns) + pass(start, event, now, turns).0.jobs->0 == start.jobs->0
            + jobs_posted(start, event, now, turns),
    decreases turns.len(),
{
    if turns.len() == 0 {
        lemma_short_tasks_first(start, event, now);
        let waiting = start.jobs->0;
        match start.step(event, now).1 {
            Action::Job(job) => {
                assert(seq![job] + waiting.drop_first() =~= waiting);
            },
            _ => {
                assert(Seq::<C>::empty() + waiting =~= waiting);
            },
        }
        assert(waiting + Seq::<C>::empty() =~= waiting);
    } else {
        lemma_jobs_first_in_first_out(start, event, now, turns.drop_last());
        let before = pass(start, event, now, turns.drop_last());
        if !(before.1 is Done) {
            let turn = turns.last();
            let called = jobs_called(start, event, now, turns.drop_last());
            let posted = jobs_posted(start, event, now, turns.drop_last());
            let state = before.0.posted_all(turn.posts);
            lemma_posted_jobs(before.0, turn.posts);
            let again = Event::Returned { exception: turn.exception };
            lemma_short_tasks_first(state, again, turn.now);
            let waiting = state.jobs->0;
            let held = before.0.jobs->0;
            let fresh = jobs_in(turn.posts);
            assert(called + (held + fresh) =~= (called + held) + fresh);
            assert((start.jobs->0 + posted) + fresh =~= start.jobs->0 + (posted + fresh));
            match state.step(again, turn.now).1 {
                Action::Job(job) => {
                    assert(called.push(job) + waiting.drop_first() =~= called + waiting);
                },
                _ => {},
            }
        }
    }
}

/// What a task body posts runs before the next delayed task. Whenever the
/// driver chooses a delayed task, or ends the pass, every job that waited
/// when the pass began or was posted since has been called.
pub proof fn lemma_posted_jobs_run_before_next_task<C>(
    start: Schedule<C>,
    event: Event,
    now: u64,
    turns: Seq<Turn<C>>,
)
    requires
        start.jobs is Some,
        !(pass(start, event, now, turns).1 is Job),
    ensures
        jobs_called(start, event, now, turns) == start.jobs->0 + jobs_posted(start, event, now, turns),
        pass(start, event, now, turns).0.jobs == Some(Seq::<C>::empty()),
{
    lemma_jobs_first_in_first_out(start, event, now, turns);
    lemma_pass_never_leaves_jobs(start, event, now, turns);
    let waiting = pass(start, event, now, turns).0.jobs->0;
    assert(waiting =~= Seq::<C>::empty());
    assert(jobs_called(start, event, now, turns) + waiting =~= jobs_called(start, event, now, turns));
}

proof fn lemma_pass_never_leaves_jobs<C>(start: Schedule<C>, event: Event, now: u64, turns: Seq<Turn<C>>)
    requires
        !(pass(start, event, now, turns).1 is Job),
    ensures
        pass(start, event, now, turns).0.jobs matches Some(jobs) ==> jobs.len() == 0,
    decreases turns.len(),
{
    if turns.len() == 0 {
        lemma_short_tasks_first(start, event, now);
    } else {
        let before = pass(start, event, now, turns.drop_last());
        if before.1 is Done {
            lemma_pass_never_leaves_jobs(start, event, now, turns.drop_last());
        } else {
            lemma_short_tasks_first(
                before.0.posted_all(turns.last().posts),
                Event::Returned { exception: turns.last().exception },
                turns.last().now,
            );
        }
    }
}

proof fn lemma_posted_spent<C>(state: Schedule<C>, posts: Seq<Post<C>>, id: TaskId)
    requires
        state.valid(),
        state.tasks matches Some(registry) && registry.spent(id),
    ensures
        state.posted_all(posts).tasks matches Some(registry) && registry.spent(id),
    decreases posts.len(),
{
    if posts.len() > 0 {
        lemma_posted_spent(state, posts.drop_last(), id);
        lemma_posted_valid(state, posts.drop_last());
    }
}

proof fn lemma_step_spent<C>(state: Schedule<C>, event: Event, now: u64, id: TaskId)
    requires
        state.valid(),
        state.tasks matches Some(registry) && registry.spent(id),
    ensures
        state.step(event, now).0.tasks matches Some(registry) && registry.spent(id),
        !(state.step(event, now).1 matches Action::Task(called, _) && called == id),
{
    let settled = state.settled(event, now);
    if earliest(settled.tasks->0.pending) is Some {
        lemma_earliest(settled.tasks->0.pending);
    }
}

/// An identifier that names no task any more never runs again. From a
/// state in which `id` was issued and is neither pending nor running, no
/// pass ever asks for `id` to be called, whatever is posted meanwhile.
pub proof fn lemma_spent_never_runs<C>(
    start: Schedule<C>,
    event: Event,
    now: u64,
    turns: Seq<Turn<C>>,
    id: TaskId,
)
    requires
        start.valid(),
        start.tasks matches Some(registry) && registry.spent(id),
    ensures
        pass(start, event, now, turns).0.tasks matches Some(registry) && registry.spent(id),
        !(pass(start, event, now, turns).1 matches Action::Task(called, _) && called == id),
    decreases turns.len(),
{
    if turns.len() == 0 {
        lemma_step_spent(start, event, now, id);
    } else {
        lemma_spent_never_runs(start, event, now, turns.drop_last(), id);
        lemma_pass_valid(start, event, now, turns.drop_last());
        let before = pass(start, event, now, turns.drop_last());
        if !(before.1 is Done) {
            lemma_posted_spent(before.0, turns.last().posts, id);
            lemma_posted_valid(before.0, turns.last().posts);
            lemma_step_spent(
                before.0.posted_all(turns.last().posts),
                Event::Returned { exception: turns.last().exception },
                turns.last().now,
                id,
            );
        }
    }
}

/// A pending task that is cancelled never runs. After `id`, which was
/// pending, has been removed, no pass ever asks for it to be called.
pub proof fn lemma_cancelled_never_runs<C>(
    state: Schedule<C>,
    id: TaskId,
    event: Event,
    now: u64,
    turns: Seq<Turn<C>>,
)
    requires
        state.valid(),
        state.tasks matches Some(registry) && registry.pending.contains_key(id),
    ensures
        !(pass(state.posted(Post::Cancel(id)), event, now, turns).1 matches Action::Task(called, _) && called
            == id),
        pass(state.posted(Post::Cancel(id)), event, now, turns).0.tasks matches Some(registry)
            && registry.spent(id),
{
    lemma_posted_valid(state, seq![Post::Cancel(id)]);
    assert(state.posted_all(seq![Post::<C>::Cancel(id)]) == state.posted(Post::Cancel(id))) by {
        assert(seq![Post::<C>::Cancel(id)].drop_last() =~= Seq::<Post<C>>::empty());
        assert(state.posted_all(Seq::<Post<C>>::empty()) == state);
    }
    lemma_spent_never_runs(state.posted(Post::Cancel(id)), event, now, turns, id);
}

proof fn lemma_posted_running<C>(state: Schedule<C>, posts: Seq<Post<C>>, id: TaskId, at_first: Macrotask<C>)
    requires
        state.valid(),
        state.tasks matches Some(registry) && registry.running == Some((id, at_first)),
    ensures
        state.posted_all(posts).valid(),
        state.posted_all(posts).tasks matches Some(registry) && (registry.running == Some((id, at_first))
            || registry.running == Some((id, at_first.cancelled()))),
    decreases posts.len(),
{
    if posts.len() > 0 {
        lemma_posted_running(state, posts.drop_last(), id, at_first);
    }
}

/// A task that does not repeat runs exactly once. Once the driver has asked
/// for `id` to be called, and `id` is a one-shot callback or a timer that is
/// not to repeat, the task is gone from the registry as soon as the call has
/// returned, whatever its body did, and no pass ever asks for it again.
pub proof fn lemma_runs_exactly_once<C>(
    state: Schedule<C>,
    id: TaskId,
    posts: Seq<Post<C>>,
    event: Event,
    now: u64,
    turns: Seq<Turn<C>>,
)
    requires
        state.valid(),
        state.tasks matches Some(registry) && registry.running matches Some((running, task)) && running
            == id && runs_once(task),
    ensures
        pass(state.posted_all(posts), event, now, turns).0.tasks matches Some(registry) && registry.spent(id),
        !(pass(state.posted_all(posts), event, now, turns).1 matches Action::Task(called, _) && called
            == id),
    decreases turns.len(),
{
    let (_, at_first) = state.tasks->0.running->0;
    lemma_posted_running(state, posts, id, at_first);
    let posted = state.posted_all(posts);
    let settled = posted.settled(event, now);
    assert(settled.tasks->0.spent(id));
    if turns.len() == 0 {
        if earliest(settled.tasks->0.pending) is Some {
            lemma_earliest(settled.tasks->0.pending);
        }
    } else {
        lemma_runs_exactly_once(state, id, posts, event, now, turns.drop_last());
        lemma_pass_valid(posted, event, now, turns.drop_last());
        let before = pass(posted, event, now, turns.drop_last());
        if !(before.1 is Done) {
            lemma_posted_spent(before.0, turns.last().posts, id);
            lemma_posted_valid(before.0, turns.last().posts);
            lemma_step_spent(
                before.0.posted_all(turns.last().posts),
                Event::Returned { exception: turns.last().exception },
                turns.last().now,
                id,
            );
        }
    }
}

/// A timer is reset once for each run, and stays registered exactly if the
/// reset says so. When the call of the running timer has returned, the
/// timer is pending again, with its due time moved on, if it repeats and
/// was not cancelled; otherwise it is gone.
pub proof fn lemma_timer_stays_iff_reset_keeps<C>(state: Schedule<C>, event: Event, now: u64)
    requires
        state.valid(),
        state.tasks matches Some(registry) && registry.running matches Some((_, Macrotask::Timer(_))),
    ensures
        ({
            let (id, task) = state.tasks->0.running->0;
            let timer = task->Timer_0;
            let after = state.settled(event, now).tasks->0;
            &&& after.running is None
            &&& after.pending.contains_key(id) == timer.repeats()
            &&& timer.repeats() ==> after.pending[id] == Macrotask::Timer(timer.rescheduled(now))
            &&& after.pending.remove(id) == state.tasks->0.pending
        }),
{
    let (id, task) = state.tasks->0.running->0;
    let after = state.settled(event, now).tasks->0;
    assert(after.pending.remove(id) =~= state.tasks->0.pending);
}

/// Whether each task of `called` runs no later than every task behind it:
/// due times never go down, and of two equal due times the smaller
/// identifier stands first.
pub open spec fn in_order<C>(called: Seq<(TaskId, Macrotask<C>)>) -> bool {
    forall|i: int, j: int|
        0 <= i < j < called.len() ==> runs_no_later(
            (#[trigger] called[i]).0,
            called[i].1,
            (#[trigger] called[j]).0,
            called[j].1,
        )
}

spec fn ordered_so_far<C>(state: Schedule<C>, called: Seq<(TaskId, Macrotask<C>)>) -> bool {
    &&& state.valid()
    &&& state.tasks is Some
    &&& in_order(called)
    &&& forall|i: int, other: TaskId|
        0 <= i < called.len() && #[trigger] state.tasks->0.pending.contains_key(other) ==> runs_no_later(
            (#[trigger] called[i]).0,
            called[i].1,
            other,
            state.tasks->0.pending[other],
        )
    &&& state.tasks->0.running matches Some((id, task)) ==> forall|i: int|
        0 <= i < called.len() ==> runs_no_later((#[trigger] called[i]).0, called[i].1, id, task)
}

proof fn lemma_posted_ordered<C>(state: Schedule<C>, posts: Seq<Post<C>>, called: Seq<(TaskId, Macrotask<C>)>)
    requires
        ordered_so_far(state, called),
        registers_nothing(posts),
    ensures
        ordered_so_far(state.posted_all(posts), called),
    decreases posts.len(),
{
    if posts.len() > 0 {
        assert(registers_nothing(posts.drop_last())) by {
            assert forall|k: int| 0 <= k < posts.drop_last().len() implies !((
            #[trigger] posts.drop_last()[k]) is Task) by {
                assert(posts.drop_last()[k] == posts[k]);
            }
        }
        lemma_posted_ordered(state, posts.drop_last(), called);
        assert(!(posts[posts.len() - 1] is Task));
    }
}

proof fn lemma_step_ordered<C>(state: Schedule<C>, event: Event, now: u64, called: Seq<(TaskId, Macrotask<C>)>)
    requires
        ordered_so_far(state, called),
    ensures
        match state.step(event, now) {
            (after, Action::Task(_, _)) => after.tasks matches Some(registry) && registry.running is Some
                && ordered_so_far(after, called.push(registry.running->0)),
            (after, _) => ordered_so_far(after, called),
        },
{
    let settled = state.settled(event, now);
    lemma_step_valid(state, event, now);
    assert forall|i: int, other: TaskId|
        0 <= i < called.len() && #[trigger] settled.tasks->0.pending.contains_key(other) implies runs_no_later(
        (#[trigger] called[i]).0,
        called[i].1,
        other,
        settled.tasks->0.pending[other],
    ) by {
        if !state.tasks->0.pending.contains_key(other) || settled.tasks->0.pending[other]
            != state.tasks->0.pending[other] {
            let (id, task) = state.tasks->0.running->0;
            assert(other == id);
            let timer = task->Timer_0;
            lemma_next_due_is_first_past_now(timer.due, timer.interval->0, now);
        }
    }
    let (after, action) = state.step(event, now);
    if action is Task {
        let pending = settled.tasks->0.pending;
        lemma_earliest(pending);
        let id = earliest(pending)->0;
        let longer = called.push((id, pending[id]));
        assert forall|i: int, j: int| 0 <= i < j < longer.len() implies runs_no_later(
            (#[trigger] longer[i]).0,
            longer[i].1,
            (#[trigger] longer[j]).0,
            longer[j].1,
        ) by {
            if j == called.len() {
                assert(longer[i] == called[i]);
                assert(pending.contains_key(id));
            } else {
                assert(longer[i] == called[i]);
                assert(longer[j] == called[j]);
            }
        }
        assert forall|i: int, other: TaskId|
            0 <= i < longer.len() && #[trigger] after.tasks->0.pending.contains_key(
                other,
            ) implies runs_no_later((#[trigger] longer[i]).0, longer[i].1, other, after.tasks->0.pending[other]) by {
            assert(pending.contains_key(other));
            if i < called.len() {
                assert(longer[i] == called[i]);
            }
        }
        assert forall|i: int| 0 <= i < longer.len() implies runs_no_later(
            (#[trigger] longer[i]).0,
            longer[i].1,
            id,
            pending[id],
        ) by {
            if i < called.len() {
                assert(longer[i] == called[i]);
            }
        }
    }
}

/// Delayed tasks run in the order of their due times, and tasks due at the
/// same instant in the order of their identifiers. In a pass during which
/// nothing new is registered, each task called was due no later than every
/// task called after it, and where two were due at one instant the one
/// registered first was called first. Timers may repeat, and task bodies
/// may post jobs and cancel tasks as they like.
pub proof fn lemma_tasks_run_in_order<C>(start: Schedule<C>, event: Event, now: u64, turns: Seq<Turn<C>>)
    requires
        start.valid(),
        start.tasks is Some,
        forall|k: int| 0 <= k < turns.len() ==> registers_nothing((#[trigger] turns[k]).posts),
    ensures
        in_order(tasks_called(start, event, now, turns)),
{
    lemma_pass_ordered(start, event, now, turns);
}

proof fn lemma_pass_ordered<C>(start: Schedule<C>, event: Event, now: u64, turns: Seq<Turn<C>>)
    requires
        start.valid(),
        start.tasks is Some,
        forall|k: int| 0 <= k < turns.len() ==> registers_nothing((#[trigger] turns[k]).posts),
    ensures
        ordered_so_far(pass(start, event, now, turns).0, tasks_called(start, event, now, turns)),
    decreases turns.len(),
{
    let nothing = Seq::<(TaskId, Macrotask<C>)>::empty();
    if turns.len() == 0 {
        lemma_step_ordered(start, event, now, nothing);
        match start.step(event, now) {
            (after, Action::Task(_, _)) => {
                assert(nothing.push(after.tasks->0.running->0) =~= seq![after.tasks->0.running->0]);
            },
            _ => {},
        }
    } else {
        assert forall|k: int| 0 <= k < turns.drop_last().len() implies registers_nothing(
            (#[trigger] turns.drop_last()[k]).posts,
        ) by {
            assert(turns.drop_last()[k] == turns[k]);
        }
        lemma_pass_ordered(start, event, now, turns.drop_last());
        let before = pass(start, event, now, turns.drop_last());
        if !(before.1 is Done) {
            let called = tasks_called(start, event, now, turns.drop_last());
            let turn = turns[turns.len() - 1];
            lemma_posted_ordered(before.0, turn.posts, called);
            lemma_step_ordered(
                before.0.posted_all(turn.posts),
                Event::Returned { exception: turn.exception },
                turn.now,
                called,
            );
        }
    }
}

} // verus!
