//! The mathematical model of a reactor: its state as plain mathematics, and
//! each operation as a function on that state.

use vstd::prelude::*;
use crate::event::ReadyEvent;

verus! {

/// What a reactor holds, apart from how it is stored: the waker on file for
/// each registered id, and the id that the next allocation hands out.
///
/// An id is a key of `wakers` exactly while a registration under it is
/// active.
#[verifier::ext_equal]
pub struct ReactorState<W> {
    /// The registration table: the current waker of every registered id.
    pub wakers: Map<usize, W>,
    /// The id that the next allocation returns.
    pub next_id: usize,
}

impl<W> ReactorState<W> {
    /// The state of a reactor that was just started: nothing is registered,
    /// and ids start from 1.
    pub open spec fn init() -> Self {
        ReactorState { wakers: Map::empty(), next_id: 1 }
    }

    /// Whether a registration under `id` is active.
    pub open spec fn is_registered(self, id: usize) -> bool {
        self.wakers.contains_key(id)
    }

    /// The state after `register`: `waker` is on file for `id`, in place of
    /// any waker that was there before. Nothing else changes.
    pub open spec fn register(self, waker: W, id: usize) -> Self {
        ReactorState { wakers: self.wakers.insert(id, waker), next_id: self.next_id }
    }

    /// The state after `deregister`: no waker is on file for `id`. Nothing
    /// else changes.
    pub open spec fn deregister(self, id: usize) -> Self {
        ReactorState { wakers: self.wakers.remove(id), next_id: self.next_id }
    }

    /// The state after one id was allocated: the counter has moved on by one.
    /// Past `usize::MAX` it starts again from 0, as an atomic increment does.
    pub open spec fn allocate(self) -> Self {
        ReactorState {
            wakers: self.wakers,
            next_id: if self.next_id == usize::MAX {
                0
            } else {
                (self.next_id + 1) as usize
            },
        }
    }

    /// The waker that a readiness event calls for, if any: the one on file
    /// for the event's id, unless the event reports both halves of the
    /// resource closed or the id is not registered.
    pub open spec fn waker_for(self, event: ReadyEvent) -> Option<W> {
        if !event.both_closed() && self.wakers.contains_key(event.id) {
            Some(self.wakers[event.id])
        } else {
            None
        }
    }

    /// The wakers that a batch of readiness events calls for, in the order of
    /// the events: one for each event that `waker_for` answers with a waker.
    pub open spec fn wakes(self, events: Seq<ReadyEvent>) -> Seq<W>
        decreases events.len(),
    {
        if events.len() == 0 {
            Seq::empty()
        } else {
            let earlier = self.wakes(events.drop_last());
            match self.waker_for(events.last()) {
                Some(waker) => earlier.push(waker),
                None => earlier,
            }
        }
    }
}

} // verus!
