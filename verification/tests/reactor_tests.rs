use fastloop::reactor::Reactor;
use fastloop::timer::TimerWheel;

#[test]
fn new_reactor_is_quiescent() {
    let r = Reactor::new();
    assert!(r.is_quiescent());
    assert_eq!(r.task_count(), 0);
}

#[test]
fn spawn_enqueues_and_take_ready_returns_it() {
    let mut r = Reactor::new();
    let t = r.spawn_task();
    assert_eq!(t, 0);
    assert!(!r.is_quiescent());
    assert_eq!(r.take_ready(), Some(0));
    assert_eq!(r.take_ready(), None);
}

#[test]
fn ready_queue_is_fifo() {
    let mut r = Reactor::new();
    let a = r.spawn_task();
    let b = r.spawn_task();
    let c = r.spawn_task();
    assert_eq!((a, b, c), (0, 1, 2));
    assert_eq!(r.take_ready(), Some(0));
    assert_eq!(r.take_ready(), Some(1));
    assert_eq!(r.take_ready(), Some(2));
    assert_eq!(r.take_ready(), None);
}

#[test]
fn register_returns_slot_indexes() {
    let mut r = Reactor::new();
    let t = r.spawn_task();
    let tok0 = r.register_waker(t);
    let tok1 = r.register_waker(t);
    let tok2 = r.register_waker(t);
    assert_eq!((tok0, tok1, tok2), (0, 1, 2));
}

#[test]
fn register_deregister_reuses_token() {
    let mut r = Reactor::new();
    let t = r.spawn_task();
    let tok = r.register_waker(t);
    assert_eq!(tok, 0);
    r.deregister(tok);
    let tok_again = r.register_waker(t);
    assert_eq!(tok_again, 0);
}

#[test]
fn deregister_absent_token_is_noop() {
    let mut r = Reactor::new();
    let t = r.spawn_task();
    let tok = r.register_waker(t);
    r.deregister(tok);
    r.deregister(tok);
    r.deregister(99);
}

#[test]
fn waker_task_looks_up_registration() {
    let mut r = Reactor::new();
    let a = r.spawn_task();
    let b = r.spawn_task();
    let tok_a = r.register_waker(a);
    let tok_b = r.register_waker(b);
    assert_eq!(r.waker_task(tok_a), Some(a));
    assert_eq!(r.waker_task(tok_b), Some(b));
    r.deregister(tok_a);
    assert_eq!(r.waker_task(tok_a), None);
    assert_eq!(r.waker_task(tok_b), Some(b));
}

#[test]
fn slab_reuse_wakes_new_owner_only() {
    let mut r = Reactor::new();
    let a = r.spawn_task();
    let b = r.spawn_task();
    // Drain the queue so neither task is scheduled.
    assert_eq!(r.take_ready(), Some(a));
    assert_eq!(r.take_ready(), Some(b));
    let tok = r.register_waker(a);
    r.deregister(tok);
    let tok_b = r.register_waker(b);
    assert_eq!(tok_b, tok);
    // Firing the recycled token wakes b, never a.
    r.dispatch_events(&vec![tok]);
    assert_eq!(r.take_ready(), Some(b));
    assert_eq!(r.take_ready(), None);
}

#[test]
fn dispatch_wakes_registered_task() {
    let mut r = Reactor::new();
    let t = r.spawn_task();
    assert_eq!(r.take_ready(), Some(t));
    r.finish_poll(t, false);
    let tok = r.register_waker(t);
    r.dispatch_events(&vec![tok]);
    assert_eq!(r.take_ready(), Some(t));
    assert_eq!(r.take_ready(), None);
}

#[test]
fn dispatch_ignores_deregistered_token() {
    let mut r = Reactor::new();
    let t = r.spawn_task();
    assert_eq!(r.take_ready(), Some(t));
    let tok = r.register_waker(t);
    r.deregister(tok);
    r.dispatch_events(&vec![tok]);
    assert_eq!(r.take_ready(), None);
}

#[test]
fn coalesced_wakes_cause_one_poll() {
    let mut r = Reactor::new();
    let t = r.spawn_task();
    assert_eq!(r.take_ready(), Some(t));
    r.finish_poll(t, false);
    // Wake the task ten times before the next drain.
    for _ in 0..10 {
        r.schedule(t);
    }
    // Exactly one poll results.
    assert_eq!(r.take_ready(), Some(t));
    assert_eq!(r.take_ready(), None);
}

#[test]
fn dispatch_coalesces_repeated_events() {
    let mut r = Reactor::new();
    let t = r.spawn_task();
    assert_eq!(r.take_ready(), Some(t));
    let tok = r.register_waker(t);
    r.dispatch_events(&vec![tok, tok, tok, tok]);
    assert_eq!(r.take_ready(), Some(t));
    assert_eq!(r.take_ready(), None);
}

#[test]
fn completed_task_is_marked() {
    let mut r = Reactor::new();
    let t = r.spawn_task();
    assert_eq!(r.take_ready(), Some(t));
    assert!(!r.task_completed(t));
    r.finish_poll(t, true);
    assert!(r.task_completed(t));
}

#[test]
fn scheduling_a_completed_task_is_harmless() {
    let mut r = Reactor::new();
    let t = r.spawn_task();
    assert_eq!(r.take_ready(), Some(t));
    r.finish_poll(t, true);
    // A waker may still fire for a completed task; it re-enters the queue
    // and the next drain observes completion and skips the poll.
    r.schedule(t);
    let again = r.take_ready();
    assert_eq!(again, Some(t));
    assert!(r.task_completed(t));
    assert_eq!(r.take_ready(), None);
}

#[test]
fn run_exit_state_is_clean() {
    // One full round as the run loop performs it: poll the spawned task to
    // completion, deregister its waker, and the reactor is quiescent.
    let mut r = Reactor::new();
    let t = r.spawn_task();
    let tok = r.register_waker(t);
    assert!(!r.is_quiescent());
    while let Some(task) = r.take_ready() {
        if !r.task_completed(task) {
            r.finish_poll(task, true);
        }
    }
    assert!(!r.is_quiescent());
    r.deregister(tok);
    assert!(r.is_quiescent());
}

#[test]
fn scheduled_flag_tracks_ready_queue() {
    let mut r = Reactor::new();
    let t = r.spawn_task();
    assert!(r.task_scheduled(t));
    assert_eq!(r.take_ready(), Some(t));
    assert!(!r.task_scheduled(t));
    r.schedule(t);
    assert!(r.task_scheduled(t));
    r.schedule(t);
    assert!(r.task_scheduled(t));
    assert_eq!(r.take_ready(), Some(t));
    assert!(!r.task_scheduled(t));
    assert_eq!(r.take_ready(), None);
}

#[test]
fn tick_timers_wakes_fired_tasks() {
    let mut r = Reactor::new();
    let mut w = TimerWheel::new();
    let t = r.spawn_task();
    assert_eq!(r.take_ready(), Some(t));
    r.finish_poll(t, false);
    w.schedule(0, t);
    r.tick_timers(&mut w);
    assert_eq!(r.take_ready(), Some(t));
    assert_eq!(r.take_ready(), None);
}

#[test]
fn tick_timers_ignores_cancelled_and_unknown_entries() {
    let mut r = Reactor::new();
    let mut w = TimerWheel::new();
    let t = r.spawn_task();
    assert_eq!(r.take_ready(), Some(t));
    let (_, entry) = w.schedule(0, t);
    w.schedule(0, 77);
    w.cancel(&entry);
    r.tick_timers(&mut w);
    assert_eq!(r.take_ready(), None);
}
