use runtime::event_loop::macrotasks::{Macrotask, MacrotaskQueue, TimerMacrotask};
use runtime::event_loop::microtasks::MicrotaskQueue;
use runtime::event_loop::{Action, EventLoop};

/// Plays the host: asks the driver for actions until the pass is over, and
/// lets `body` stand for the engine. `body` gets the driver, the callable to
/// run and the number of calls made so far, may post and cancel as a task
/// body would, and tells whether it left an exception pending. The clock
/// stands at `now` throughout.
fn run_pass(
    event_loop: &mut EventLoop<u32>,
    now: u64,
    limit: usize,
    body: &mut dyn FnMut(&mut EventLoop<u32>, u32, usize) -> bool,
) -> (Vec<Action<u32>>, Option<Result<(), ()>>) {
    let mut trace = Vec::new();
    let mut action = event_loop.run(now);
    for calls in 0..limit {
        let callable = match action {
            Action::Job(job) => job,
            Action::Task(_, callback) => callback,
            Action::Done(result) => return (trace, Some(result)),
        };
        trace.push(action);
        let exception = body(event_loop, callable, calls);
        action = event_loop.resume(exception, now);
    }
    (trace, None)
}

fn quiet(_: &mut EventLoop<u32>, _: u32, _: usize) -> bool {
    false
}

fn timer(callback: u32, due: u64) -> Macrotask<u32> {
    Macrotask::Timer(TimerMacrotask::new(callback, due, None))
}

#[test]
fn nothing_scheduled_is_success_without_a_call() {
    let mut event_loop: EventLoop<u32> = EventLoop::new(None, None);
    assert_eq!(event_loop.run(0), Action::Done(Ok(())));
    let (trace, result) = run_pass(&mut event_loop, 0, 10, &mut quiet);
    assert!(trace.is_empty());
    assert_eq!(result, Some(Ok(())));
}

#[test]
fn posts_to_an_absent_category_are_lost() {
    let mut event_loop: EventLoop<u32> = EventLoop::new(None, None);
    assert!(!event_loop.enqueue(1));
    assert_eq!(event_loop.insert(Macrotask::OneShot(2)), None);
    event_loop.remove(0);
    assert!(event_loop.microtasks().is_none());
    assert!(event_loop.macrotasks().is_none());
    assert_eq!(event_loop.run(0), Action::Done(Ok(())));
}

#[test]
fn jobs_run_first_in_first_out() {
    let mut queue = MicrotaskQueue::new();
    queue.enqueue(10);
    queue.enqueue(11);
    queue.enqueue(12);
    let mut event_loop = EventLoop::new(None, Some(queue));
    // the first job posts two more, the second one more
    let mut body = |event_loop: &mut EventLoop<u32>, callable: u32, _: usize| {
        if callable == 10 {
            event_loop.enqueue(13);
            event_loop.enqueue(14);
        }
        if callable == 11 {
            event_loop.enqueue(15);
        }
        false
    };
    let (trace, result) = run_pass(&mut event_loop, 0, 100, &mut body);
    assert_eq!(
        trace,
        vec![
            Action::Job(10),
            Action::Job(11),
            Action::Job(12),
            Action::Job(13),
            Action::Job(14),
            Action::Job(15)
        ]
    );
    assert_eq!(result, Some(Ok(())));
    assert!(event_loop.microtasks().unwrap().is_empty());
}

#[test]
fn queue_hands_out_oldest_first() {
    let mut queue = MicrotaskQueue::new();
    assert!(queue.is_empty());
    assert_eq!(queue.dequeue(), None::<u32>);
    queue.enqueue(3);
    queue.enqueue(1);
    queue.enqueue(2);
    assert_eq!(queue.len(), 3);
    assert_eq!(queue.dequeue(), Some(3));
    queue.enqueue(9);
    assert_eq!(queue.dequeue(), Some(1));
    assert_eq!(queue.dequeue(), Some(2));
    assert_eq!(queue.dequeue(), Some(9));
    assert_eq!(queue.dequeue(), None);
    assert!(queue.is_empty());
}

#[test]
fn two_timers_run_in_due_order() {
    let mut registry = MacrotaskQueue::new();
    let a = registry.insert(timer(100, 10));
    let b = registry.insert(timer(200, 5));
    assert_eq!((a, b), (0, 1));
    assert_eq!(registry.next(), Some(b));
    let mut event_loop = EventLoop::new(Some(registry), None);
    let (trace, result) = run_pass(&mut event_loop, 20, 100, &mut quiet);
    assert_eq!(trace, vec![Action::Task(b, 200), Action::Task(a, 100)]);
    assert_eq!(result, Some(Ok(())));
    let registry = event_loop.macrotasks().unwrap();
    assert!(registry.is_empty());
    assert_eq!(registry.next(), None);
    assert_eq!(registry.get(a), None);
    assert_eq!(registry.get(b), None);
    assert_eq!(registry.running(), None);
}

#[test]
fn tasks_run_by_due_time_then_by_identifier() {
    let mut registry = MacrotaskQueue::new();
    let ids = [
        registry.insert(timer(0, 30)),
        registry.insert(timer(1, 10)),
        registry.insert(Macrotask::OneShot(2)),
        registry.insert(timer(3, 10)),
        registry.insert(timer(4, 0)),
        registry.insert(Macrotask::OneShot(5)),
        registry.insert(timer(6, 20)),
    ];
    assert_eq!(ids, [0, 1, 2, 3, 4, 5, 6]);
    let mut event_loop = EventLoop::new(Some(registry), None);
    let (trace, result) = run_pass(&mut event_loop, 0, 100, &mut quiet);
    assert_eq!(
        trace,
        vec![
            Action::Task(2, 2),
            Action::Task(4, 4),
            Action::Task(5, 5),
            Action::Task(1, 1),
            Action::Task(3, 3),
            Action::Task(6, 6),
            Action::Task(0, 0)
        ]
    );
    assert_eq!(result, Some(Ok(())));
}

#[test]
fn one_shot_runs_once_and_is_gone() {
    let mut registry = MacrotaskQueue::new();
    let id = registry.insert(Macrotask::OneShot(7));
    let mut event_loop = EventLoop::new(Some(registry), None);
    assert_eq!(event_loop.run(0), Action::Task(id, 7));
    {
        let registry = event_loop.macrotasks().unwrap();
        assert_eq!(registry.get(id), None);
        assert_eq!(registry.running(), Some((id, Macrotask::OneShot(7))));
    }
    assert_eq!(event_loop.resume(false, 0), Action::Done(Ok(())));
    let registry = event_loop.macrotasks().unwrap();
    assert_eq!(registry.get(id), None);
    assert_eq!(registry.running(), None);
    assert!(registry.is_empty());
    // a further pass finds nothing to call
    let (trace, result) = run_pass(&mut event_loop, 0, 10, &mut quiet);
    assert!(trace.is_empty());
    assert_eq!(result, Some(Ok(())));
}

#[test]
fn repeating_timer_stays_while_reset_keeps_it() {
    let mut registry = MacrotaskQueue::new();
    let id = registry.insert(Macrotask::Timer(TimerMacrotask::new(1, 0, Some(100))));
    let mut event_loop = EventLoop::new(Some(registry), None);
    // the timer cancels itself during its third run
    let mut body = |event_loop: &mut EventLoop<u32>, _: u32, calls: usize| {
        if calls == 2 {
            event_loop.remove(0);
        }
        false
    };
    let (trace, result) = run_pass(&mut event_loop, 250, 100, &mut body);
    assert_eq!(trace, vec![Action::Task(id, 1), Action::Task(id, 1), Action::Task(id, 1)]);
    assert_eq!(result, Some(Ok(())));
    assert!(event_loop.macrotasks().unwrap().is_empty());
}

#[test]
fn repeating_timer_runs_until_the_host_stops_asking() {
    let mut registry = MacrotaskQueue::new();
    let id = registry.insert(Macrotask::Timer(TimerMacrotask::new(1, 0, Some(100))));
    let mut event_loop = EventLoop::new(Some(registry), None);
    let (trace, result) = run_pass(&mut event_loop, 250, 4, &mut quiet);
    assert_eq!(trace.len(), 4);
    assert!(trace.iter().all(|action| *action == Action::Task(id, 1)));
    assert_eq!(result, None);
    // The driver has asked for a fifth call, which has not been made: the
    // timer is running. Its first return moved it past the clock, to 300;
    // each of the three returns after that found it ahead of the clock and
    // moved it one interval on.
    assert_eq!(
        event_loop.macrotasks().unwrap().running(),
        Some((id, Macrotask::Timer(TimerMacrotask { callback: 1, due: 600, interval: Some(100), cancelled: false })))
    );
}

#[test]
fn repeating_timer_is_pending_again_after_each_run() {
    let mut registry = MacrotaskQueue::new();
    let id = registry.insert(Macrotask::Timer(TimerMacrotask::new(1, 0, Some(100))));
    assert_eq!(registry.begin(), Some((id, 1)));
    assert_eq!(registry.get(id), None);
    assert!(registry.finish(250));
    assert_eq!(
        registry.get(id),
        Some(Macrotask::Timer(TimerMacrotask { callback: 1, due: 300, interval: Some(100), cancelled: false }))
    );
    assert_eq!(registry.next(), Some(id));
    assert_eq!(registry.running(), None);
    // a timer that does not repeat is gone after its run
    let mut registry = MacrotaskQueue::new();
    let id = registry.insert(timer(1, 0));
    assert_eq!(registry.begin(), Some((id, 1)));
    assert!(!registry.finish(250));
    assert_eq!(registry.get(id), None);
    assert_eq!(registry.next(), None);
}

#[test]
fn job_posted_by_a_task_runs_before_the_next_task() {
    let mut registry = MacrotaskQueue::new();
    let first = registry.insert(timer(1, 5));
    let second = registry.insert(timer(2, 10));
    let mut event_loop = EventLoop::new(Some(registry), Some(MicrotaskQueue::new()));
    let mut body = |event_loop: &mut EventLoop<u32>, callable: u32, _: usize| {
        if callable == 1 {
            event_loop.enqueue(50);
        }
        if callable == 50 {
            event_loop.enqueue(51);
        }
        false
    };
    let (trace, result) = run_pass(&mut event_loop, 0, 100, &mut body);
    assert_eq!(
        trace,
        vec![Action::Task(first, 1), Action::Job(50), Action::Job(51), Action::Task(second, 2)]
    );
    assert_eq!(result, Some(Ok(())));
}

#[test]
fn jobs_that_wait_run_before_the_first_task() {
    let mut registry = MacrotaskQueue::new();
    let id = registry.insert(Macrotask::OneShot(1));
    let mut queue = MicrotaskQueue::new();
    queue.enqueue(8);
    queue.enqueue(9);
    let mut event_loop = EventLoop::new(Some(registry), Some(queue));
    let (trace, result) = run_pass(&mut event_loop, 0, 100, &mut quiet);
    assert_eq!(trace, vec![Action::Job(8), Action::Job(9), Action::Task(id, 1)]);
    assert_eq!(result, Some(Ok(())));
}

#[test]
fn cancelled_task_never_runs() {
    let mut registry = MacrotaskQueue::new();
    let first = registry.insert(timer(1, 5));
    let second = registry.insert(timer(2, 10));
    let third = registry.insert(timer(3, 15));
    let mut event_loop = EventLoop::new(Some(registry), None);
    let mut body = |event_loop: &mut EventLoop<u32>, callable: u32, _: usize| {
        if callable == 1 {
            event_loop.remove(1);
        }
        false
    };
    let (trace, result) = run_pass(&mut event_loop, 0, 100, &mut body);
    assert_eq!(trace, vec![Action::Task(first, 1), Action::Task(third, 3)]);
    assert_eq!(result, Some(Ok(())));
    assert_eq!(event_loop.macrotasks().unwrap().get(second), None);
}

#[test]
fn task_may_remove_everything() {
    let mut registry = MacrotaskQueue::new();
    registry.insert(timer(1, 5));
    registry.insert(timer(2, 10));
    registry.insert(Macrotask::Timer(TimerMacrotask::new(3, 15, Some(5))));
    let mut event_loop = EventLoop::new(Some(registry), None);
    let mut body = |event_loop: &mut EventLoop<u32>, _: u32, _: usize| {
        event_loop.remove(0);
        event_loop.remove(1);
        event_loop.remove(2);
        false
    };
    let (trace, result) = run_pass(&mut event_loop, 0, 100, &mut body);
    assert_eq!(trace, vec![Action::Task(0, 1)]);
    assert_eq!(result, Some(Ok(())));
    assert!(event_loop.macrotasks().unwrap().is_empty());
    assert_eq!(event_loop.macrotasks().unwrap().next(), None);
}

#[test]
fn failing_task_does_not_stop_the_others() {
    let mut registry = MacrotaskQueue::new();
    let first = registry.insert(timer(1, 5));
    let second = registry.insert(timer(2, 10));
    let third = registry.insert(timer(3, 15));
    let mut event_loop = EventLoop::new(Some(registry), Some(MicrotaskQueue::new()));
    // task 2 always fails; task 3 posts a job
    let mut body = |event_loop: &mut EventLoop<u32>, callable: u32, _: usize| {
        if callable == 3 {
            event_loop.enqueue(30);
        }
        callable == 2
    };
    let (trace, result) = run_pass(&mut event_loop, 0, 100, &mut body);
    assert_eq!(
        trace,
        vec![Action::Task(first, 1), Action::Task(second, 2), Action::Task(third, 3), Action::Job(30)]
    );
    assert_eq!(result, Some(Err(())));
    // the failure belongs to that pass: the next one starts clean
    let (trace, result) = run_pass(&mut event_loop, 0, 100, &mut quiet);
    assert!(trace.is_empty());
    assert_eq!(result, Some(Ok(())));
}

#[test]
fn failing_job_makes_the_pass_fail() {
    let mut queue = MicrotaskQueue::new();
    queue.enqueue(1);
    queue.enqueue(2);
    queue.enqueue(3);
    let mut event_loop = EventLoop::new(None, Some(queue));
    let mut body = |_: &mut EventLoop<u32>, callable: u32, _: usize| callable == 1;
    let (trace, result) = run_pass(&mut event_loop, 0, 100, &mut body);
    assert_eq!(trace, vec![Action::Job(1), Action::Job(2), Action::Job(3)]);
    assert_eq!(result, Some(Err(())));
}

#[test]
fn timer_due_at_zero_every_hundred_run_at_250_is_due_at_300() {
    let mut timer = TimerMacrotask::new(1u32, 0, Some(100));
    assert!(timer.reset(250));
    assert_eq!(timer.due, 300);
    assert_eq!(timer.interval, Some(100));
    assert!(!timer.cancelled);
}

#[test]
fn reset_moves_to_the_first_stride_past_now() {
    let due_after = |due: u64, interval: u64, now: u64| {
        let mut timer = TimerMacrotask::new(0u32, due, Some(interval));
        assert!(timer.reset(now));
        timer.due
    };
    assert_eq!(due_after(0, 100, 0), 100);
    assert_eq!(due_after(0, 100, 99), 100);
    assert_eq!(due_after(0, 100, 100), 200);
    assert_eq!(due_after(0, 100, 299), 300);
    assert_eq!(due_after(0, 100, 300), 400);
    assert_eq!(due_after(7, 10, 7), 17);
    assert_eq!(due_after(7, 10, 26), 27);
    assert_eq!(due_after(7, 10, 27), 37);
    // run before it was due: one stride on
    assert_eq!(due_after(500, 100, 250), 600);
    // a zero interval steps by one tick
    assert_eq!(due_after(5, 0, 250), 251);
    assert_eq!(due_after(500, 0, 250), 501);
    // what lies beyond the clock is held at its last tick
    assert_eq!(due_after(u64::MAX - 5, 10, 0), u64::MAX);
    assert_eq!(due_after(0, 10, u64::MAX), u64::MAX);
    assert_eq!(due_after(0, 1, u64::MAX), u64::MAX);
    assert_eq!(due_after(u64::MAX, 1, u64::MAX), u64::MAX);
    assert_eq!(due_after(0, u64::MAX, 5), u64::MAX);
}

#[test]
fn reset_refuses_cancelled_and_single_timers() {
    let mut single = TimerMacrotask::new(1u32, 40, None);
    assert!(!single.reset(250));
    assert_eq!(single.due, 40);
    let mut cancelled = TimerMacrotask::new(1u32, 40, Some(100));
    cancelled.cancel();
    assert!(cancelled.cancelled);
    assert!(!cancelled.reset(250));
    assert_eq!(cancelled.due, 40);
    assert_eq!(cancelled.interval, Some(100));
}

#[test]
fn timer_cancelled_during_its_own_run_is_not_rescheduled() {
    let mut registry = MacrotaskQueue::new();
    let id = registry.insert(Macrotask::Timer(TimerMacrotask::new(1u32, 0, Some(10))));
    assert_eq!(registry.begin(), Some((id, 1)));
    registry.remove(id);
    assert_eq!(
        registry.running(),
        Some((id, Macrotask::Timer(TimerMacrotask { callback: 1, due: 0, interval: Some(10), cancelled: true })))
    );
    assert!(!registry.finish(5));
    assert_eq!(registry.get(id), None);
    assert!(registry.is_empty());
}

#[test]
fn removing_an_unknown_identifier_changes_nothing() {
    let mut registry = MacrotaskQueue::new();
    let id = registry.insert(timer(1u32, 5));
    registry.remove(17);
    assert_eq!(registry.get(id), Some(timer(1, 5)));
    assert_eq!(registry.next(), Some(id));
    assert_eq!(registry.issued(), 1);
    registry.find_next();
    assert_eq!(registry.next(), Some(id));
}

#[test]
fn identifiers_are_never_issued_twice() {
    let mut registry = MacrotaskQueue::new();
    assert_eq!(registry.insert(timer(1u32, 5)), 0);
    assert_eq!(registry.insert(timer(2, 5)), 1);
    registry.remove(1);
    registry.remove(0);
    assert!(registry.is_empty());
    assert_eq!(registry.insert(timer(3, 5)), 2);
    assert_eq!(registry.issued(), 3);
    assert_eq!(registry.next(), Some(2));
}

#[test]
fn next_follows_every_change() {
    let mut registry = MacrotaskQueue::new();
    assert_eq!(registry.next(), None);
    let a = registry.insert(timer(1u32, 50));
    assert_eq!(registry.next(), Some(a));
    let b = registry.insert(timer(2, 20));
    assert_eq!(registry.next(), Some(b));
    let c = registry.insert(timer(3, 20));
    assert_eq!(registry.next(), Some(b));
    registry.remove(b);
    assert_eq!(registry.next(), Some(c));
    let d = registry.insert(Macrotask::OneShot(4));
    assert_eq!(registry.next(), Some(d));
    assert_eq!(registry.begin(), Some((d, 4)));
    assert_eq!(registry.next(), Some(c));
    // nothing else may begin while a task runs
    assert_eq!(registry.begin(), None);
    assert!(!registry.finish(0));
    assert_eq!(registry.begin(), Some((c, 3)));
    assert_eq!(registry.next(), Some(a));
    assert!(!registry.finish(0));
    assert!(!registry.finish(0));
    assert_eq!(registry.next(), Some(a));
}

#[test]
fn task_due_and_callback() {
    assert_eq!(timer(9, 44).due(), 44);
    assert_eq!(timer(9, 44).callback(), 9);
    assert_eq!(Macrotask::OneShot(3u32).due(), 0);
    assert_eq!(Macrotask::OneShot(3u32).callback(), 3);
}

#[test]
fn task_registered_during_a_pass_runs_in_that_pass() {
    let mut event_loop = EventLoop::new(Some(MacrotaskQueue::new()), Some(MicrotaskQueue::new()));
    assert!(event_loop.enqueue(1));
    let mut body = |event_loop: &mut EventLoop<u32>, callable: u32, _: usize| {
        if callable == 1 {
            assert_eq!(event_loop.insert(timer(2, 100)), Some(0));
            assert_eq!(event_loop.insert(timer(3, 50)), Some(1));
        }
        false
    };
    let (trace, result) = run_pass(&mut event_loop, 0, 100, &mut body);
    assert_eq!(trace, vec![Action::Job(1), Action::Task(1, 3), Action::Task(0, 2)]);
    assert_eq!(result, Some(Ok(())));
}
