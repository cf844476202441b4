//! What a poll of the OS multiplexer reported: the contents of a
//! `mio::Events` buffer as plain values.
//!
//! Polling itself blocks on the OS and is done by the program that owns the
//! reactor. This module only reads what a poll left in the buffer. The items
//! marked as trusted are believed, not proved: they state what mio's source
//! shows of the functions they call.

use vstd::prelude::*;
use crate::event::ReadyEvent;
use crate::reactor::{referents, Reactor};

verus! {

/// Trusted: the type `mio::Events`, the buffer that `mio::Poll::poll` fills.
/// Nothing inside it is visible to the verifier.
#[verifier::external_type_specification]
#[verifier::external_body]
pub struct ExEvents(mio::Events);

/// Trusted name: the readiness events that a buffer holds, in the order in
/// which `mio::Events::iter` yields them. Each stands as the plain values
/// that mio reports of it: `Event::token` as the id, `Event::is_read_closed`
/// and `Event::is_write_closed` as the two flags.
pub uninterp spec fn reported(events: mio::Events) -> Seq<ReadyEvent>;

/// The number of events that the buffer of `event_buffer` has room for.
pub const EVENT_CAPACITY: usize = 100;

/// Trusted: `mio::Events::iter`, and on every event that it yields
/// `Event::token`, `Event::is_read_closed` and `Event::is_write_closed`.
/// The contract claims that the vector returned holds `reported(events)`:
/// one entry per event of the buffer, in the iterator's order. The buffer is
/// only read.
#[verifier::external_body]
fn read_events(events: &mio::Events) -> (ready: Vec<ReadyEvent>)
    ensures
        ready@ == reported(*events),
{
    let mut ready = Vec::new();
    for event in events.iter() {
        ready.push(
            ReadyEvent {
                id: event.token().0,
                read_closed: event.is_read_closed(),
                write_closed: event.is_write_closed(),
            },
        );
    }
    ready
}

/// Trusted: `mio::Events::with_capacity`. The contract claims that a new
/// buffer holds no event. mio allocates room for `capacity` OS event
/// records at once, and that allocation panics where its size in bytes
/// passes `isize::MAX`; the bound on `capacity` keeps far from there.
#[verifier::external_body]
fn events_with_capacity(capacity: usize) -> (events: mio::Events)
    requires
        capacity <= 65_536,
    ensures
        reported(events) == Seq::<ReadyEvent>::empty(),
{
    mio::Events::with_capacity(capacity)
}

/// Makes the buffer that the event loop polls into: empty, with room for
/// `EVENT_CAPACITY` events.
pub fn event_buffer() -> (events: mio::Events)
    ensures
        reported(events) == Seq::<ReadyEvent>::empty(),
{
    events_with_capacity(EVENT_CAPACITY)
}

impl<W> Reactor<W> {
    /// Decides what the events of a finished poll call for: the wakers to
    /// invoke, in the order in which the buffer yields the events. This is
    /// `dispatch_ready` on what the buffer holds.
    pub fn dispatch<'a>(&'a self, events: &mio::Events) -> (woken: Vec<&'a W>)
        ensures
            referents(woken@) == self@.wakes(reported(*events)),
    {
        let ready = read_events(events);
        self.dispatch_ready(ready.as_slice())
    }
}

} // verus!
