//! The reactor: registration table and id counter, with verified operations.

use std::collections::HashMap;
use vstd::prelude::*;
use crate::event::ReadyEvent;
use crate::model::ReactorState;

verus! {

/// The bookkeeping of a reactor over wakers of type `W`.
///
/// A waker is opaque here: the reactor stores it, replaces it and hands it
/// back, and never looks inside.
pub struct Reactor<W> {
    wakers: HashMap<usize, W>,
    next_id: usize,
}

impl<W> View for Reactor<W> {
    type V = ReactorState<W>;

    closed spec fn view(&self) -> ReactorState<W> {
        ReactorState { wakers: self.wakers@, next_id: self.next_id }
    }
}

/// The values that a sequence of references points to, in the same order.
pub open spec fn referents<W>(refs: Seq<&W>) -> Seq<W> {
    Seq::new(refs.len(), |i: int| *refs[i])
}

/// Creates the state of a reactor: no registration, and 1 as the first id.
pub fn start<W>() -> (reactor: Reactor<W>)
    ensures
        reactor@ == ReactorState::<W>::init(),
{
    Reactor { wakers: HashMap::new(), next_id: 1 }
}

impl<W> Reactor<W> {
    /// Puts `waker` on file for `id`, in place of any waker registered under
    /// `id` before, and reports whether `id` is new to the table.
    ///
    /// On `true` the caller has to ask the OS multiplexer to watch the
    /// resource under `id`. On `false` the resource is watched already, and
    /// asking again would be an error.
    pub fn register(&mut self, waker: W, id: usize) -> (is_new: bool)
        ensures
            final(self)@ == old(self)@.register(waker, id),
            is_new == !old(self)@.is_registered(id),
    {
        self.wakers.insert(id, waker).is_none()
    }

    /// Takes the waker of `id` off file. From here on no readiness event for
    /// `id` calls for a waker, whether it was reported before or after.
    ///
    /// The caller has to ask the OS multiplexer to stop watching the
    /// resource, and to do so before the resource is closed.
    pub fn deregister(&mut self, id: usize)
        ensures
            final(self)@ == old(self)@.deregister(id),
    {
        self.wakers.remove(&id);
    }

    /// Allocates an id: returns the counter's value and moves the counter on
    /// by one. Registering and deregistering never touch the counter, so an
    /// id comes back only after the counter has gone round all of `usize`.
    pub fn next_id(&mut self) -> (id: usize)
        ensures
            id == old(self)@.next_id,
            final(self)@ == old(self)@.allocate(),
    {
        let id: usize = self.next_id;
        self.next_id = id.wrapping_add(1);
        id
    }

    /// Decides what one readiness event calls for: the waker on file for the
    /// event's id, or nothing where the event reports both halves of the
    /// resource closed or the id is not registered (any more).
    pub fn waker_for(&self, event: &ReadyEvent) -> (waker: Option<&W>)
        ensures
            match waker {
                Some(w) => self@.waker_for(*event) == Some(*w),
                None => self@.waker_for(*event) is None,
            },
            event.both_closed() ==> waker is None,
            !self@.is_registered(event.id) ==> waker is None,
    {
        if event.both_closed() {
            None
        } else {
            self.wakers.get(&event.id)
        }
    }

    /// Decides what a batch of readiness events calls for: the wakers to
    /// invoke, one for each event that `waker_for` answers with a waker, in
    /// the order of the events. The table is read and left as it is.
    pub fn dispatch_ready<'a>(&'a self, events: &[ReadyEvent]) -> (woken: Vec<&'a W>)
        ensures
            referents(woken@) == self@.wakes(events@),
    {
        let mut woken: Vec<&'a W> = Vec::new();
        let mut done: usize = 0;
        while done < events.len()
            invariant
                done <= events.len(),
                referents(woken@) == self@.wakes(events@.take(done as int)),
            decreases events.len() - done,
        {
            let ghost before = woken@;
            if let Some(waker) = self.waker_for(&events[done]) {
                woken.push(waker);
                proof {
                    assert(referents(woken@) =~= referents(before).push(*waker));
                }
            }
            proof {
                assert(events@.take(done + 1).drop_last() == events@.take(done as int));
            }
            done += 1;
        }
        proof {
            assert(events@.take(events.len() as int) == events@);
        }
        woken
    }
}

} // verus!
