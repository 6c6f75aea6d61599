//! Delayed tasks: timers and one-shot callbacks.

use std::collections::HashMap;
use vstd::prelude::*;
use vstd::std_specs::iter::IteratorSpec;

verus! {

broadcast use vstd::std_specs::hash::group_hash_axioms;

/// Identifies a delayed task. Identifiers are issued in ascending order and
/// never twice, so a smaller identifier means an earlier registration.
pub type TaskId = u64;

/// A callable that becomes due at an instant, and may come due again every
/// `interval` after that. Instants and intervals are counted in ticks of the
/// host's monotonic clock.
#[derive(Clone, Copy, Debug, PartialEq, Eq)]
pub struct TimerMacrotask<C> {
    pub callback: C,
    pub due: u64,
    pub interval: Option<u64>,
    pub cancelled: bool,
}

/// The distance between two due times of a timer that repeats every
/// `interval`. A zero interval is stepped as one tick, the shortest period
/// the clock can express.
pub open spec fn stride(interval: u64) -> int {
    if interval == 0 { 1 } else { interval as int }
}

/// The due time after `due` of a timer that ran at `now`: `due` advanced by
/// whole strides, at least one, and as few as make it later than `now`.
pub open spec fn next_due(due: u64, interval: u64, now: u64) -> int {
    if due > now {
        due + stride(interval)
    } else {
        due + ((now - due) / stride(interval) + 1) * stride(interval)
    }
}

/// An instant as the clock can hold it: what lies beyond its range is held
/// as its last tick.
pub open spec fn saturated(instant: int) -> u64 {
    if instant > u64::MAX { u64::MAX } else { instant as u64 }
}

impl<C> TimerMacrotask<C> {
    /// Whether the timer stays registered after it has run.
    pub open spec fn repeats(self) -> bool {
        !self.cancelled && self.interval is Some
    }

    /// The timer as `reset` leaves it when the clock reads `now`.
    pub open spec fn rescheduled(self, now: u64) -> TimerMacrotask<C> {
        if self.repeats() {
            TimerMacrotask { due: saturated(next_due(self.due, self.interval->0, now)), ..self }
        } else {
            self
        }
    }

    /// A timer due at `due`, repeating every `interval` if there is one.
    pub fn new(callback: C, due: u64, interval: Option<u64>) -> (timer: TimerMacrotask<C>)
        ensures
            timer == (TimerMacrotask { callback, due, interval, cancelled: false }),
    {
        TimerMacrotask { callback, due, interval, cancelled: false }
    }

    /// Marks the timer so that it will not be rescheduled.
    pub fn cancel(&mut self)
        ensures
            *final(self) == (TimerMacrotask { cancelled: true, ..*old(self) }),
    {
        self.cancelled = true;
    }

    /// Called once each time the timer has run, at instant `now`. Tells
    /// whether the timer is to stay registered; if so, its due time has moved
    /// on to the first stride past `now`.
    pub fn reset(&mut self, now: u64) -> (keep: bool)
        ensures
            keep == old(self).repeats(),
            *final(self) == old(self).rescheduled(now),
    {
        if self.cancelled {
            return false;
        }
        match self.interval {
            None => false,
            Some(interval) => {
                let step: u64 = if interval == 0 { 1 } else { interval };
                let base: u64 = if self.due > now {
                    self.due
                } else {
                    let behind: u64 = now - self.due;
                    let whole: u64 = behind / step;
                    proof {
                        lemma_whole_strides(behind as int, step as int);
                    }
                    self.due + whole * step
                };
                proof {
                    if self.due <= now {
                        lemma_one_more_stride(self.due as int, ((now - self.due) / (step as int)), step as int);
                    }
                }
                self.due = if step > u64::MAX - base { u64::MAX } else { base + step };
                true
            },
        }
    }
}

/// A delayed task: a timer, or a callback that the host posted to run once
/// as soon as its turn comes.
#[derive(Clone, Copy, Debug, PartialEq, Eq)]
pub enum Macrotask<C> {
    Timer(TimerMacrotask<C>),
    OneShot(C),
}

impl<C> Macrotask<C> {
    /// The instant from which the task may run. A one-shot callback carries
    /// none of its own and may run at once: it is ordered at instant zero.
    pub open spec fn spec_due(&self) -> u64 {
        match *self {
            Macrotask::Timer(timer) => timer.due,
            Macrotask::OneShot(_) => 0,
        }
    }

    /// What the engine is asked to call when the task runs.
    pub open spec fn spec_callback(&self) -> C {
        match *self {
            Macrotask::Timer(timer) => timer.callback,
            Macrotask::OneShot(callback) => callback,
        }
    }

    /// The task with a request not to reschedule it. Only a timer can be
    /// rescheduled, so only a timer changes.
    pub open spec fn cancelled(self) -> Macrotask<C> {
        match self {
            Macrotask::Timer(timer) => Macrotask::Timer(TimerMacrotask { cancelled: true, ..timer }),
            Macrotask::OneShot(_) => self,
        }
    }

    /// What stays registered of a task that has run and returned at `now`:
    /// a timer that repeats, with its next due time; of any other task,
    /// nothing.
    pub open spec fn after_run(self, now: u64) -> Option<Macrotask<C>> {
        match self {
            Macrotask::Timer(timer) => if timer.repeats() {
                Some(Macrotask::Timer(timer.rescheduled(now)))
            } else {
                None
            },
            Macrotask::OneShot(_) => None,
        }
    }

    #[verifier::when_used_as_spec(spec_due)]
    pub fn due(&self) -> (due: u64)
        ensures
            due == self.spec_due(),
    {
        match self {
            Macrotask::Timer(timer) => timer.due,
            Macrotask::OneShot(_) => 0,
        }
    }
}

impl<C: Copy> Macrotask<C> {
    /// What the engine is asked to call when the task runs.
    pub fn callback(&self) -> (callback: C)
        ensures
            callback == self.spec_callback(),
    {
        match self {
            Macrotask::Timer(timer) => timer.callback,
            Macrotask::OneShot(callback) => *callback,
        }
    }
}

/// Whether task `a`, registered as `a_id`, is to run no later than task `b`,
/// registered as `b_id`: the earlier due time goes first, and of two equal
/// due times the earlier registration.
pub open spec fn runs_no_later<C>(a_id: TaskId, a: Macrotask<C>, b_id: TaskId, b: Macrotask<C>) -> bool {
    a.due() < b.due() || (a.due() == b.due() && a_id <= b_id)
}

/// Whether `id` is the pending task that is to run before all others.
pub open spec fn is_earliest<C>(pending: Map<TaskId, Macrotask<C>>, id: TaskId) -> bool {
    &&& pending.contains_key(id)
    &&& forall|other: TaskId| #[trigger]
        pending.contains_key(other) ==> runs_no_later(id, pending[id], other, pending[other])
}

/// The pending task that is to run before all others, if any task is pending.
pub open spec fn earliest<C>(pending: Map<TaskId, Macrotask<C>>) -> Option<TaskId> {
    if exists|id: TaskId| is_earliest(pending, id) {
        Some(choose|id: TaskId| is_earliest(pending, id))
    } else {
        None
    }
}

/// At most one task runs before all others, so `earliest` names it.
pub proof fn lemma_earliest_is_unique<C>(pending: Map<TaskId, Macrotask<C>>, id: TaskId)
    requires
        is_earliest(pending, id),
    ensures
        earliest(pending) == Some(id),
{
    let chosen = choose|id: TaskId| is_earliest(pending, id);
    assert(pending.contains_key(chosen));
    assert(pending.contains_key(id));
    assert(runs_no_later(id, pending[id], chosen, pending[chosen]));
    assert(runs_no_later(chosen, pending[chosen], id, pending[id]));
}

/// What a registry holds.
pub struct Registry<C> {
    /// The tasks that wait for their turn.
    pub pending: Map<TaskId, Macrotask<C>>,
    /// The task that the engine is running, taken out of `pending` for as
    /// long as it runs.
    pub running: Option<(TaskId, Macrotask<C>)>,
    /// How many identifiers have been issued: the next one to be issued.
    pub issued: nat,
}

impl<C> Registry<C> {
    /// Every identifier in use has been issued, the running task is not also
    /// pending, and the count of identifiers fits the machine.
    pub open spec fn valid(self) -> bool {
        &&& self.issued <= TaskId::MAX
        &&& forall|id: TaskId| #[trigger] self.pending.contains_key(id) ==> id < self.issued
        &&& self.running matches Some((id, _)) ==> id < self.issued && !self.pending.contains_key(id)
    }

    /// Whether `id` names a task that waits or runs.
    pub open spec fn knows(self, id: TaskId) -> bool {
        self.pending.contains_key(id) || (self.running matches Some((running, _)) && running == id)
    }

    /// The registry after `task` was registered under the next identifier.
    /// Once the last identifier is spent nothing more can be registered.
    pub open spec fn inserted(self, task: Macrotask<C>) -> Registry<C> {
        if self.issued < TaskId::MAX {
            Registry {
                pending: self.pending.insert(self.issued as TaskId, task),
                issued: self.issued + 1,
                ..self
            }
        } else {
            self
        }
    }

    /// The registry after `id` was removed: a pending task is gone; the
    /// running task cannot be taken back, so it is marked not to be
    /// rescheduled; any other identifier changes nothing.
    pub open spec fn removed(self, id: TaskId) -> Registry<C> {
        Registry {
            pending: self.pending.remove(id),
            running: match self.running {
                Some((running, task)) if running == id => Some((running, task.cancelled())),
                _ => self.running,
            },
            ..self
        }
    }

    /// The registry after its earliest task was handed to the engine. With
    /// nothing pending, or a task still running, nothing changes.
    pub open spec fn begun(self) -> Registry<C> {
        match (self.running, earliest(self.pending)) {
            (None, Some(id)) => Registry {
                pending: self.pending.remove(id),
                running: Some((id, self.pending[id])),
                ..self
            },
            _ => self,
        }
    }

    /// The registry after the running task returned at `now`: the task is
    /// pending again under its identifier if it repeats, and gone otherwise.
    pub open spec fn finished(self, now: u64) -> Registry<C> {
        match self.running {
            Some((id, task)) => Registry {
                pending: match task.after_run(now) {
                    Some(again) => self.pending.insert(id, again),
                    None => self.pending,
                },
                running: None,
                ..self
            },
            None => self,
        }
    }
}

/// The delayed-task registry: pending timers and one-shot callbacks by
/// identifier, with the identifier of the one that is to run next kept at
/// hand.
pub struct MacrotaskQueue<C> {
    map: HashMap<TaskId, Macrotask<C>>,
    running: Option<(TaskId, Macrotask<C>)>,
    next: Option<TaskId>,
    issued: TaskId,
}

spec fn next_fits<C>(pending: Map<TaskId, Macrotask<C>>, next: Option<TaskId>) -> bool {
    match next {
        Some(id) => is_earliest(pending, id),
        None => pending == Map::<TaskId, Macrotask<C>>::empty(),
    }
}

impl<C> View for MacrotaskQueue<C> {
    type V = Registry<C>;

    closed spec fn view(&self) -> Registry<C> {
        Registry { pending: self.map@, running: self.running, issued: self.issued as nat }
    }
}

impl<C: Copy> MacrotaskQueue<C> {
    /// The identifier that the registry keeps at hand as the next to run.
    /// It is what `next` answers, and what `find_next` brings up to date.
    pub closed spec fn cached_next(&self) -> Option<TaskId> {
        self.next
    }

    /// The invariant of the registry: what it holds is valid, and the
    /// identifier kept at hand is that of the earliest pending task.
    pub closed spec fn wf(&self) -> bool {
        &&& self@.valid()
        &&& next_fits(self@.pending, self.next)
    }

    /// A well-formed registry holds what is valid, and keeps at hand the
    /// identifier of its earliest pending task.
    pub proof fn lemma_wf(&self)
        requires
            self.wf(),
        ensures
            self@.valid(),
            self.cached_next() == earliest(self@.pending),
            self.cached_next() is None <==> self@.pending == Map::<TaskId, Macrotask<C>>::empty(),
    {
        lemma_next_fits(self@.pending, self.next);
    }

    /// A registry that holds nothing and has issued no identifier.
    pub fn new() -> (registry: MacrotaskQueue<C>)
        ensures
            registry.wf(),
            registry@ == (Registry::<C> { pending: Map::empty(), running: None, issued: 0 }),
    {
        MacrotaskQueue { map: HashMap::new(), running: None, next: None, issued: 0 }
    }

    /// How many identifiers have been issued.
    pub fn issued(&self) -> (issued: TaskId)
        ensures
            issued == self@.issued,
    {
        self.issued
    }

    /// Whether no task is pending.
    pub fn is_empty(&self) -> (empty: bool)
        requires
            self.wf(),
        ensures
            empty == (self@.pending == Map::<TaskId, Macrotask<C>>::empty()),
    {
        proof {
            lemma_next_fits(self@.pending, self.next);
        }
        self.next.is_none()
    }

    /// The pending task registered as `id`, if there is one.
    pub fn get(&self, id: TaskId) -> (task: Option<Macrotask<C>>)
        ensures
            task == (if self@.pending.contains_key(id) {
                Some(self@.pending[id])
            } else {
                None::<Macrotask<C>>
            }),
    {
        match self.map.get(&id) {
            Some(task) => Some(*task),
            None => None,
        }
    }

    /// The task that the engine is running, with its identifier.
    pub fn running(&self) -> (running: Option<(TaskId, Macrotask<C>)>)
        ensures
            running == self@.running,
    {
        self.running
    }

    /// The identifier of the task that is to run next: the earliest pending
    /// one, or none where nothing is pending.
    pub fn next(&self) -> (next: Option<TaskId>)
        requires
            self.wf(),
        ensures
            next == self.cached_next(),
            next == earliest(self@.pending),
            next is None <==> self@.pending == Map::<TaskId, Macrotask<C>>::empty(),
    {
        proof {
            lemma_next_fits(self@.pending, self.next);
        }
        self.next
    }

    /// Registers `task` under the next identifier and returns it.
    pub fn insert(&mut self, task: Macrotask<C>) -> (id: TaskId)
        requires
            old(self).wf(),
            old(self)@.issued < TaskId::MAX,
        ensures
            final(self).wf(),
            id == old(self)@.issued,
            final(self)@ == old(self)@.inserted(task),
    {
        let id = self.issued;
        self.map.insert(id, task);
        self.issued = id + 1;
        self.find_next();
        id
    }

    /// Cancels `id`: a pending task is deleted, the running task is marked so
    /// that it is not rescheduled, and an unknown identifier is ignored.
    pub fn remove(&mut self, id: TaskId)
        requires
            old(self).wf(),
        ensures
            final(self).wf(),
            final(self)@ == old(self)@.removed(id),
    {
        self.map.remove(&id);
        match self.running {
            Some((running, task)) => {
                if running == id {
                    match task {
                        Macrotask::Timer(mut timer) => {
                            timer.cancel();
                            self.running = Some((running, Macrotask::Timer(timer)));
                        },
                        Macrotask::OneShot(_) => {},
                    }
                }
            },
            None => {},
        }
        self.find_next();
    }

    /// Looks through all pending tasks for the earliest and keeps its
    /// identifier at hand, whatever was kept before: the task with the
    /// earliest due time, and of several due at that instant the one with
    /// the smallest identifier; nothing where no task is pending. The tasks
    /// themselves are left as they are. It asks only that what the registry
    /// holds is valid, and leaves the registry well-formed: every operation
    /// that changes the pending tasks ends with it.
    pub fn find_next(&mut self)
        requires
            old(self)@.valid(),
        ensures
            final(self)@ == old(self)@,
            final(self).cached_next() == earliest(final(self)@.pending),
            final(self).cached_next() is None <==> final(self)@.pending == Map::<TaskId, Macrotask<C>>::empty(),
            final(self).wf(),
    {
        self.next = self.scan();
        proof {
            lemma_next_fits(self@.pending, self.next);
        }
    }

    /// Hands the earliest pending task to the engine: takes it out of the
    /// pending tasks for as long as it runs, and returns its identifier and
    /// what to call. Returns nothing, and changes nothing, where no task is
    /// pending or one is still running.
    pub fn begin(&mut self) -> (started: Option<(TaskId, C)>)
        requires
            old(self).wf(),
        ensures
            final(self).wf(),
            final(self)@ == old(self)@.begun(),
            started == (match (old(self)@.running, earliest(old(self)@.pending)) {
                (None, Some(id)) => Some((id, old(self)@.pending[id].spec_callback())),
                _ => None::<(TaskId, C)>,
            }),
    {
        proof {
            lemma_next_fits(self@.pending, self.next);
        }
        if self.running.is_some() {
            return None;
        }
        match self.next {
            None => None,
            Some(id) => {
                match self.map.remove(&id) {
                    Some(task) => {
                        self.running = Some((id, task));
                        self.find_next();
                        Some((id, task.callback()))
                    },
                    None => None,
                }
            },
        }
    }

    /// Settles the running task, which returned at `now`: a timer is reset,
    /// and is pending again under its identifier if it is to repeat; any
    /// other task is gone. Tells whether the task stays registered.
    pub fn finish(&mut self, now: u64) -> (kept: bool)
        requires
            old(self).wf(),
        ensures
            final(self).wf(),
            final(self)@ == old(self)@.finished(now),
            kept == (old(self)@.running matches Some((_, task)) && task.after_run(now) is Some),
    {
        let mut kept = false;
        match self.running {
            Some((id, Macrotask::Timer(mut timer))) => {
                if timer.reset(now) {
                    self.map.insert(id, Macrotask::Timer(timer));
                    kept = true;
                }
            },
            _ => {},
        }
        self.running = None;
        self.find_next();
        kept
    }

    /// The identifier of the earliest pending task.
    fn scan(&self) -> (next: Option<TaskId>)
        ensures
            next_fits(self@.pending, next),
    {
        let mut best: Option<(TaskId, u64)> = None;
        for entry in entries: self.map.iter()
            invariant
                entries.seq() == self.map.iter().remaining(),
                match best {
                    Some((id, due)) => self.map@.contains_key(id) && self.map@[id].due() == due && forall|
                        j: int,
                    |
                        0 <= j < entries.index() ==> runs_no_later(
                            id,
                            self.map@[id],
                            *(#[trigger] entries.seq()[j]).0,
                            *entries.seq()[j].1,
                        ),
                    None => entries.index() == 0,
                },
        {
            let (id, task) = entry;
            let due = task.due();
            let better = match best {
                Some((best_id, best_due)) => due < best_due || (due == best_due && *id < best_id),
                None => true,
            };
            if better {
                best = Some((*id, due));
            }
        }
        let ghost listed = self.map.iter().remaining();
        match best {
            Some((id, _)) => {
                proof {
                    assert forall|other: TaskId| #[trigger] self.map@.contains_key(other) implies runs_no_later(
                        id,
                        self.map@[id],
                        other,
                        self.map@[other],
                    ) by {
                        assert(listed.contains((&other, &self.map@[other])));
                        let j = choose|j: int| 0 <= j < listed.len() && listed[j] == (&other, &self.map@[other]);
                        assert(runs_no_later(id, self.map@[id], *listed[j].0, *listed[j].1));
                    }
                }
                Some(id)
            },
            None => {
                proof {
                    assert forall|id: TaskId| !self.map@.contains_key(id) by {
                        if self.map@.contains_key(id) {
                            assert(listed.contains((&id, &self.map@[id])));
                        }
                    }
                    assert(self.map@ =~= Map::<TaskId, Macrotask<C>>::empty());
                }
                None
            },
        }
    }
}

proof fn lemma_next_fits<C>(pending: Map<TaskId, Macrotask<C>>, next: Option<TaskId>)
    requires
        next_fits(pending, next),
    ensures
        next == earliest(pending),
        next is None <==> pending == Map::<TaskId, Macrotask<C>>::empty(),
{
    match next {
        Some(id) => {
            lemma_earliest_is_unique(pending, id);
            assert(pending.contains_key(id));
        },
        None => {
            assert forall|id: TaskId| !is_earliest(pending, id) by {
                assert(!pending.contains_key(id));
            }
        },
    }
}

/// The first stride past `now` is later than `now`, lies a whole number of
/// strides after `due`, and no earlier such instant is later than `now`
/// unless it is the first one after `due`.
pub proof fn lemma_next_due_is_first_past_now(due: u64, interval: u64, now: u64)
    ensures
        next_due(due, interval, now) > now,
        next_due(due, interval, now) > due,
        (next_due(due, interval, now) - due) % stride(interval) == 0,
        next_due(due, interval, now) - stride(interval) <= now || next_due(due, interval, now)
            - stride(interval) == due,
{
    let s = stride(interval);
    if due <= now {
        let behind = now - due;
        lemma_whole_strides(behind, s);
        lemma_one_more_stride(due as int, behind / s, s);
        vstd::arithmetic::div_mod::lemma_mod_multiples_basic(behind / s + 1, s);
    } else {
        vstd::arithmetic::div_mod::lemma_mod_multiples_basic(1, s);
    }
}

proof fn lemma_whole_strides(behind: int, step: int)
    requires
        0 <= behind,
        0 < step,
    ensures
        0 <= behind / step,
        0 <= (behind / step) * step <= behind,
        behind < (behind / step) * step + step,
{
    vstd::arithmetic::div_mod::lemma_fundamental_div_mod(behind, step);
    vstd::arithmetic::div_mod::lemma_mod_bound(behind, step);
    vstd::arithmetic::div_mod::lemma_div_pos_is_pos(behind, step);
    assert(step * (behind / step) == (behind / step) * step) by (nonlinear_arith);
}

proof fn lemma_one_more_stride(due: int, whole: int, step: int)
    ensures
        due + (whole + 1) * step == due + whole * step + step,
{
    assert((whole + 1) * step == whole * step + step) by (nonlinear_arith);
}

} // verus!
