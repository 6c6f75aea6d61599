//! The task-queue scheduler: a queue of short tasks, a registry of delayed
//! tasks, and the driver that decides what the engine is asked to run next.
//!
//! The driver never calls the engine. The host does: it begins a pass with
//! [`EventLoop::run`], makes the call it is asked for, and reports how the
//! call ended with [`EventLoop::resume`], until it is told that the pass is
//! over. Whatever a task body posts or cancels in the meantime goes through
//! [`EventLoop::enqueue`], [`EventLoop::insert`] and [`EventLoop::remove`],
//! and is in place before the driver decides again.

pub mod macrotasks;
pub mod microtasks;
pub mod passes;

use crate::event_loop::macrotasks::{earliest, Macrotask, MacrotaskQueue, Registry, TaskId};
use crate::event_loop::microtasks::MicrotaskQueue;
use vstd::prelude::*;

verus! {

/// What makes the driver decide.
#[derive(Clone, Copy, Debug, PartialEq, Eq)]
pub enum Event {
    /// A pass begins: nothing was called yet.
    Start,
    /// The call that the driver asked for last has returned. `exception`
    /// says whether the engine was left with a pending exception.
    Returned { exception: bool },
}

/// What the driver asks the host to do next.
#[derive(Debug, PartialEq, Eq)]
pub enum Action<C> {
    /// Call this job, the oldest of the short-task queue.
    Job(C),
    /// Call the callable of this delayed task, the earliest that was pending.
    Task(TaskId, C),
    /// Nothing is left to call: the pass is over, with this result.
    Done(Result<(), ()>),
}

/// What a task body, or the host, may ask of the queues.
pub enum Post<C> {
    /// Put a job at the end of the short-task queue.
    Job(C),
    /// Register a delayed task.
    Task(Macrotask<C>),
    /// Cancel a delayed task.
    Cancel(TaskId),
}

/// What the driver holds: the short tasks that wait, oldest first, the
/// delayed tasks, and whether a call of this pass has failed. A category
/// that is `None` is not scheduled at all.
pub struct Schedule<C> {
    pub jobs: Option<Seq<C>>,
    pub tasks: Option<Registry<C>>,
    pub failed: bool,
}

impl<C> Schedule<C> {
    /// Whether the delayed tasks, if they are scheduled, are valid.
    pub open spec fn valid(self) -> bool {
        self.tasks matches Some(registry) ==> registry.valid()
    }

    /// The result of a pass that ends in this state.
    pub open spec fn result(self) -> Result<(), ()> {
        if self.failed { Err(()) } else { Ok(()) }
    }

    /// The state after `post` was carried out. A post to a category that is
    /// not scheduled is lost.
    pub open spec fn posted(self, post: Post<C>) -> Schedule<C> {
        match post {
            Post::Job(job) => Schedule {
                jobs: match self.jobs {
                    Some(jobs) => Some(jobs.push(job)),
                    None => None,
                },
                ..self
            },
            Post::Task(task) => Schedule {
                tasks: match self.tasks {
                    Some(registry) => Some(registry.inserted(task)),
                    None => None,
                },
                ..self
            },
            Post::Cancel(id) => Schedule {
                tasks: match self.tasks {
                    Some(registry) => Some(registry.removed(id)),
                    None => None,
                },
                ..self
            },
        }
    }

    /// The state after an event was taken in: a new pass has no failure yet,
    /// a returned call adds its own; and the delayed task that was running,
    /// if any, is rescheduled or dropped.
    pub open spec fn settled(self, event: Event, now: u64) -> Schedule<C> {
        Schedule {
            jobs: self.jobs,
            tasks: match self.tasks {
                Some(registry) => Some(registry.finished(now)),
                None => None,
            },
            failed: match event {
                Event::Start => false,
                Event::Returned { exception } => self.failed || exception,
            },
        }
    }

    /// The choice of what to call next, and the state once it is made: the
    /// oldest short task while there is one; else the earliest delayed
    /// task; else nothing, and the pass ends.
    pub open spec fn chosen(self) -> (Schedule<C>, Action<C>) {
        if self.jobs is Some && self.jobs->0.len() > 0 {
            (Schedule { jobs: Some(self.jobs->0.drop_first()), ..self }, Action::Job(self.jobs->0[0]))
        } else if self.tasks is Some && self.tasks->0.running is None && earliest(
            self.tasks->0.pending,
        ) is Some {
            let id = earliest(self.tasks->0.pending)->0;
            (
                Schedule { tasks: Some(self.tasks->0.begun()), ..self },
                Action::Task(id, self.tasks->0.pending[id].spec_callback()),
            )
        } else {
            (self, Action::Done(self.result()))
        }
    }

    /// One decision of the driver: take the event in, then choose.
    pub open spec fn step(self, event: Event, now: u64) -> (Schedule<C>, Action<C>) {
        self.settled(event, now).chosen()
    }
}

/// The scheduler driver of one engine session.
pub struct EventLoop<C> {
    macrotasks: Option<MacrotaskQueue<C>>,
    microtasks: Option<MicrotaskQueue<C>>,
    failed: bool,
}

impl<C> View for EventLoop<C> {
    type V = Schedule<C>;

    closed spec fn view(&self) -> Schedule<C> {
        Schedule {
            jobs: match self.microtasks {
                Some(queue) => Some(queue@),
                None => None,
            },
            tasks: match self.macrotasks {
                Some(registry) => Some(registry@),
                None => None,
            },
            failed: self.failed,
        }
    }
}

impl<C: Copy> EventLoop<C> {
    /// The invariant of the driver: its registry, if it has one, is
    /// well-formed.
    pub closed spec fn wf(&self) -> bool {
        self.macrotasks matches Some(registry) ==> registry.wf()
    }

    /// A well-formed driver holds a valid schedule.
    pub proof fn lemma_wf(&self)
        requires
            self.wf(),
        ensures
            self@.valid(),
    {
        if let Some(registry) = self.macrotasks {
            registry.lemma_wf();
        }
    }

    /// A driver for the two queues. Either may be absent, which leaves that
    /// kind of task unscheduled.
    pub fn new(macrotasks: Option<MacrotaskQueue<C>>, microtasks: Option<MicrotaskQueue<C>>) -> (event_loop:
        EventLoop<C>)
        requires
            macrotasks matches Some(registry) ==> registry.wf(),
        ensures
            event_loop.wf(),
            event_loop@ == (Schedule {
                jobs: match microtasks {
                    Some(queue) => Some(queue@),
                    None => None,
                },
                tasks: match macrotasks {
                    Some(registry) => Some(registry@),
                    None => None,
                },
                failed: false,
            }),
    {
        EventLoop { macrotasks, microtasks, failed: false }
    }

    /// The delayed-task registry, if delayed tasks are scheduled.
    pub fn macrotasks(&self) -> (registry: Option<&MacrotaskQueue<C>>)
        requires
            self.wf(),
        ensures
            registry is Some == self@.tasks is Some,
            registry matches Some(registry) ==> registry.wf() && Some(registry@) == self@.tasks,
    {
        self.macrotasks.as_ref()
    }

    /// The short-task queue, if short tasks are scheduled.
    pub fn microtasks(&self) -> (queue: Option<&MicrotaskQueue<C>>)
        ensures
            queue is Some == self@.jobs is Some,
            queue matches Some(queue) ==> Some(queue@) == self@.jobs,
    {
        self.microtasks.as_ref()
    }

    /// Puts `job` at the end of the short-task queue. Tells whether short
    /// tasks are scheduled; if they are not, the job is lost.
    pub fn enqueue(&mut self, job: C) -> (accepted: bool)
        requires
            old(self).wf(),
        ensures
            final(self).wf(),
            accepted == old(self)@.jobs is Some,
            final(self)@ == old(self)@.posted(Post::Job(job)),
    {
        match &mut self.microtasks {
            Some(queue) => {
                queue.enqueue(job);
                true
            },
            None => false,
        }
    }

    /// Registers a delayed task and returns its identifier. Returns nothing,
    /// and registers nothing, where delayed tasks are not scheduled or the
    /// last identifier is spent.
    pub fn insert(&mut self, task: Macrotask<C>) -> (id: Option<TaskId>)
        requires
            old(self).wf(),
        ensures
            final(self).wf(),
            final(self)@ == old(self)@.posted(Post::Task(task)),
            id == (match old(self)@.tasks {
                Some(registry) if registry.issued < TaskId::MAX => Some(registry.issued as TaskId),
                _ => None::<TaskId>,
            }),
    {
        match &mut self.macrotasks {
            Some(registry) => {
                if registry.issued() < TaskId::MAX {
                    Some(registry.insert(task))
                } else {
                    None
                }
            },
            None => None,
        }
    }

    /// Cancels the delayed task `id`: if it is pending it will not run; if
    /// it is running it will not be rescheduled; otherwise nothing happens.
    pub fn remove(&mut self, id: TaskId)
        requires
            old(self).wf(),
        ensures
            final(self).wf(),
            final(self)@ == old(self)@.posted(Post::Cancel(id)),
    {
        match &mut self.macrotasks {
            Some(registry) => {
                registry.remove(id);
            },
            None => {},
        }
    }

    /// Begins a pass at instant `now`. The answer is the first call to make,
    /// or the end of the pass at once where nothing waits. A pass begins
    /// without a failure, whatever the pass before it met. A delayed task
    /// that an abandoned pass left running is settled as if it had returned.
    pub fn run(&mut self, now: u64) -> (action: Action<C>)
        requires
            old(self).wf(),
        ensures
            final(self).wf(),
            (final(self)@, action) == old(self)@.step(Event::Start, now),
    {
        self.failed = false;
        self.decide(now)
    }

    /// Goes on with the pass once the call that the driver asked for last
    /// has returned, at instant `now`. `exception` says whether the call
    /// left the engine with a pending exception, which makes the pass fail
    /// but does not end it. The answer is the next call to make, or the end
    /// of the pass with its result.
    pub fn resume(&mut self, exception: bool, now: u64) -> (action: Action<C>)
        requires
            old(self).wf(),
        ensures
            final(self).wf(),
            (final(self)@, action) == old(self)@.step(Event::Returned { exception }, now),
    {
        if exception {
            self.failed = true;
        }
        self.decide(now)
    }

    /// Settles the delayed task that was running, then chooses what to call
    /// next.
    fn decide(&mut self, now: u64) -> (action: Action<C>)
        requires
            old(self).wf(),
        ensures
            final(self).wf(),
            (final(self)@, action) == (Schedule {
                tasks: match old(self)@.tasks {
                    Some(registry) => Some(registry.finished(now)),
                    None => None,
                },
                ..old(self)@
            }).chosen(),
    {
        match &mut self.macrotasks {
            Some(registry) => {
                registry.finish(now);
            },
            None => {},
        }
        let job = match &mut self.microtasks {
            Some(queue) => queue.dequeue(),
            None => None,
        };
        if let Some(job) = job {
            return Action::Job(job);
        }
        let started = match &mut self.macrotasks {
            Some(registry) => registry.begin(),
            None => None,
        };
        match started {
            Some((id, callback)) => Action::Task(id, callback),
            None => Action::Done(if self.failed { Err(()) } else { Ok(()) }),
        }
    }
}

} // verus!
