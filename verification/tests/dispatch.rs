use std::cell::Cell;

use reactor::{start, Reactor, ReadyEvent};

/// A waker that counts how often it was invoked.
struct Counting {
    calls: Cell<u32>,
}

impl Counting {
    fn new() -> Self {
        Counting { calls: Cell::new(0) }
    }

    fn wake(&self) {
        self.calls.set(self.calls.get() + 1);
    }
}

fn event(id: usize, read_closed: bool, write_closed: bool) -> ReadyEvent {
    ReadyEvent { id, read_closed, write_closed }
}

#[test]
fn both_closed_means_both() {
    assert!(event(1, true, true).both_closed());
    assert!(!event(1, true, false).both_closed());
    assert!(!event(1, false, true).both_closed());
    assert!(!event(1, false, false).both_closed());
}

#[test]
fn reregistration_before_readiness_wakes_only_the_second_waker() {
    let a = Counting::new();
    let b = Counting::new();
    let mut reactor: Reactor<&Counting> = start();
    let mut interests_added = 0;
    if reactor.register(&a, 1) {
        interests_added += 1;
    }
    if reactor.register(&b, 1) {
        interests_added += 1;
    }
    let woken = reactor.dispatch_ready(&[event(1, false, false)]);
    assert_eq!(woken.len(), 1);
    for waker in woken {
        waker.wake();
    }
    assert_eq!(b.calls.get(), 1);
    assert_eq!(a.calls.get(), 0);
    assert_eq!(interests_added, 1);
}

#[test]
fn event_for_a_deregistered_id_wakes_nobody() {
    let w = Counting::new();
    let mut reactor: Reactor<&Counting> = start();
    reactor.register(&w, 2);
    reactor.deregister(2);
    let queued = event(2, false, false);
    assert!(reactor.waker_for(&queued).is_none());
    let woken = reactor.dispatch_ready(&[queued]);
    assert!(woken.is_empty());
    for waker in woken {
        waker.wake();
    }
    assert_eq!(w.calls.get(), 0);
}

#[test]
fn event_with_both_halves_closed_wakes_nobody() {
    let mut reactor: Reactor<&str> = start();
    reactor.register("a", 1);
    assert_eq!(reactor.waker_for(&event(1, true, true)), None);
    assert!(reactor.dispatch_ready(&[event(1, true, true)]).is_empty());
}

#[test]
fn event_with_one_half_closed_still_wakes() {
    let mut reactor: Reactor<&str> = start();
    reactor.register("a", 1);
    assert_eq!(reactor.waker_for(&event(1, true, false)), Some(&"a"));
    assert_eq!(reactor.waker_for(&event(1, false, true)), Some(&"a"));
    let woken = reactor.dispatch_ready(&[event(1, true, false), event(1, false, true)]);
    assert_eq!(woken, vec![&"a", &"a"]);
}

#[test]
fn closed_event_for_an_unknown_id_wakes_nobody() {
    let reactor: Reactor<&str> = start();
    assert_eq!(reactor.waker_for(&event(3, true, true)), None);
}

#[test]
fn empty_batch_wakes_nobody() {
    let mut reactor: Reactor<&str> = start();
    reactor.register("a", 1);
    assert!(reactor.dispatch_ready(&[]).is_empty());
}

#[test]
fn batch_is_answered_in_event_order() {
    let mut reactor: Reactor<&str> = start();
    reactor.register("one", 1);
    reactor.register("two", 2);
    reactor.register("three", 3);
    let batch = [
        event(3, false, false),
        event(1, false, false),
        event(2, false, false),
        event(1, false, false),
    ];
    assert_eq!(reactor.dispatch_ready(&batch), vec![&"three", &"one", &"two", &"one"]);
}

#[test]
fn batch_skips_closed_and_unknown_events() {
    let mut reactor: Reactor<&str> = start();
    reactor.register("one", 1);
    reactor.register("two", 2);
    reactor.register("gone", 3);
    reactor.deregister(3);
    let batch = [
        event(1, true, true),
        event(2, false, false),
        event(3, false, false),
        event(9, false, false),
        event(1, false, true),
        event(2, true, true),
    ];
    assert_eq!(reactor.dispatch_ready(&batch), vec![&"two", &"one"]);
}

#[test]
fn every_live_event_gets_exactly_one_wake() {
    let a = Counting::new();
    let b = Counting::new();
    let mut reactor: Reactor<&Counting> = start();
    reactor.register(&a, 1);
    reactor.register(&b, 2);
    let batch = [event(1, false, false), event(2, false, false), event(1, false, false)];
    for waker in reactor.dispatch_ready(&batch) {
        waker.wake();
    }
    assert_eq!(a.calls.get(), 2);
    assert_eq!(b.calls.get(), 1);
}

#[test]
fn dispatch_reads_the_table_as_it_is_now() {
    let mut reactor: Reactor<&str> = start();
    reactor.register("old", 1);
    assert_eq!(reactor.dispatch_ready(&[event(1, false, false)]), vec![&"old"]);
    reactor.register("new", 1);
    assert_eq!(reactor.dispatch_ready(&[event(1, false, false)]), vec![&"new"]);
    reactor.deregister(1);
    assert!(reactor.dispatch_ready(&[event(1, false, false)]).is_empty());
}
