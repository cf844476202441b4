use std::io::Write;
use std::time::Duration;

use mio::net::UnixStream;
use mio::{Interest, Poll, Token, Waker};
use reactor::{event_buffer, start, Reactor, EVENT_CAPACITY};

const PATIENCE: Option<Duration> = Some(Duration::from_secs(5));

#[test]
fn event_buffer_starts_empty() {
    let events = event_buffer();
    assert!(events.is_empty());
    assert_eq!(events.iter().count(), 0);
    assert!(events.capacity() >= EVENT_CAPACITY);
    assert_eq!(EVENT_CAPACITY, 100);
}

#[test]
fn empty_buffer_wakes_nobody() {
    let mut reactor: Reactor<&str> = start();
    reactor.register("a", 1);
    assert!(reactor.dispatch(&event_buffer()).is_empty());
}

#[test]
fn polled_event_carries_its_token_as_id() {
    let mut poll = Poll::new().unwrap();
    let signal = Waker::new(poll.registry(), Token(7)).unwrap();
    let mut reactor: Reactor<&str> = start();
    reactor.register("six", 6);
    reactor.register("seven", 7);
    reactor.register("eight", 8);

    signal.wake().unwrap();
    let mut events = event_buffer();
    poll.poll(&mut events, PATIENCE).unwrap();

    assert!(!events.is_empty());
    assert_eq!(reactor.dispatch(&events), vec![&"seven"]);
}

#[test]
fn polled_readiness_wakes_the_latest_waker_with_one_interest() {
    let mut poll = Poll::new().unwrap();
    let (mut resource, mut peer) = UnixStream::pair().unwrap();
    let mut reactor: Reactor<&str> = start();
    let mut interests_added = 0;

    for waker in ["a", "b"] {
        if reactor.register(waker, 1) {
            poll.registry().register(&mut resource, Token(1), Interest::READABLE).unwrap();
            interests_added += 1;
        }
    }
    peer.write_all(b"ready").unwrap();
    let mut events = event_buffer();
    poll.poll(&mut events, PATIENCE).unwrap();

    assert_eq!(reactor.dispatch(&events), vec![&"b"]);
    assert_eq!(interests_added, 1);
}

#[test]
fn polled_event_after_deregister_wakes_nobody() {
    let mut poll = Poll::new().unwrap();
    let signal = Waker::new(poll.registry(), Token(2)).unwrap();
    let mut reactor: Reactor<&str> = start();
    reactor.register("w", 2);

    signal.wake().unwrap();
    let mut events = event_buffer();
    poll.poll(&mut events, PATIENCE).unwrap();
    reactor.deregister(2);

    assert!(!events.is_empty());
    assert!(reactor.dispatch(&events).is_empty());
}

#[test]
fn polled_hang_up_wakes_nobody() {
    let mut poll = Poll::new().unwrap();
    let (mut resource, peer) = UnixStream::pair().unwrap();
    let mut reactor: Reactor<&str> = start();
    assert!(reactor.register("a", 3));
    poll.registry().register(&mut resource, Token(3), Interest::READABLE).unwrap();

    drop(peer);
    let mut events = event_buffer();
    poll.poll(&mut events, PATIENCE).unwrap();

    let hung_up: Vec<bool> =
        events.iter().map(|e| e.is_read_closed() && e.is_write_closed()).collect();
    assert_eq!(hung_up, vec![true]);
    assert!(reactor.dispatch(&events).is_empty());
}
