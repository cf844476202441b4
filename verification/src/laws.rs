//! What holds of a reactor across several operations, proved over its model.

use vstd::prelude::*;
use vstd::arithmetic::div_mod::{
    lemma_add_mod_noop, lemma_mod_equivalence, lemma_mod_self_0, lemma_small_mod,
};
use crate::event::ReadyEvent;
use crate::model::ReactorState;

verus! {

impl<W> ReactorState<W> {
    /// The state after `register` was called once for each waker of
    /// `wakers`, in order, every time under the same `id`.
    pub open spec fn register_all(self, wakers: Seq<W>, id: usize) -> Self
        decreases wakers.len(),
    {
        if wakers.len() == 0 {
            self
        } else {
            self.register_all(wakers.drop_last(), id).register(wakers.last(), id)
        }
    }

    /// How many of the calls that `register_all` stands for report `id` as
    /// new, that is, ask for the OS to be told of a new interest.
    pub open spec fn interests_added(self, wakers: Seq<W>, id: usize) -> nat
        decreases wakers.len(),
    {
        if wakers.len() == 0 {
            0
        } else {
            let before = self.register_all(wakers.drop_last(), id);
            let earlier = self.interests_added(wakers.drop_last(), id);
            if before.is_registered(id) {
                earlier
            } else {
                earlier + 1
            }
        }
    }

    /// The state after one resource has come and gone: an id is allocated,
    /// `waker` is registered under it, and the id is deregistered again.
    pub open spec fn cycle(self, waker: W) -> Self {
        self.allocate().register(waker, self.next_id).deregister(self.next_id)
    }

    /// The state after one `cycle` for each waker of `wakers`, in order.
    pub open spec fn cycles(self, wakers: Seq<W>) -> Self
        decreases wakers.len(),
    {
        if wakers.len() == 0 {
            self
        } else {
            self.cycles(wakers.drop_last()).cycle(wakers.last())
        }
    }

    /// The id that the cycle at position `k` of `cycles(wakers)` allocates
    /// and registers under.
    pub open spec fn cycle_id(self, wakers: Seq<W>, k: int) -> usize {
        self.cycles(wakers.take(k)).next_id
    }
}

/// An event for `id` that is a readiness signal: it does not report both
/// halves of the resource closed.
pub open spec fn live_event(event: ReadyEvent, id: usize) -> bool {
    event.id == id && !event.both_closed()
}

/// The latest registration wins. After any number of `register` calls under
/// one id, a readiness event for that id calls for the waker that was
/// registered last and for no other.
pub proof fn lemma_latest_waker_wins<W>(
    state: ReactorState<W>,
    wakers: Seq<W>,
    id: usize,
    event: ReadyEvent,
)
    requires
        wakers.len() > 0,
        live_event(event, id),
    ensures
        state.register_all(wakers, id).waker_for(event) == Some(wakers.last()),
        state.register_all(wakers, id).wakes(seq![event]) == seq![wakers.last()],
{
    let after = state.register_all(wakers, id);
    let batch = seq![event];
    assert(after.wakes(batch.drop_last()) =~= Seq::<W>::empty());
    assert(after.wakes(batch) =~= seq![wakers.last()]);
}

/// After at least one `register` under `id`, the id is registered.
pub proof fn lemma_registered_after_register<W>(state: ReactorState<W>, wakers: Seq<W>, id: usize)
    requires
        wakers.len() > 0,
    ensures
        state.register_all(wakers, id).is_registered(id),
{
}

/// Interest is added once. Over any number of `register` calls under one id
/// with no `deregister` in between, only the first call can report the id as
/// new, and it does so exactly where the id was not registered to begin
/// with. So the calls ask for one new interest, or for none.
pub proof fn lemma_interest_added_once<W>(state: ReactorState<W>, wakers: Seq<W>, id: usize)
    ensures
        forall|k: int|
            0 <= k < wakers.len() ==> (!(#[trigger] state.register_all(
                wakers.take(k),
                id,
            )).is_registered(id) <==> k == 0 && !state.is_registered(id)),
        state.interests_added(wakers, id) == if wakers.len() == 0 || state.is_registered(id) {
            0nat
        } else {
            1nat
        },
    decreases wakers.len(),
{
    assert forall|k: int| 0 <= k < wakers.len() implies (!(#[trigger] state.register_all(
        wakers.take(k),
        id,
    )).is_registered(id) <==> k == 0 && !state.is_registered(id)) by {
        if k > 0 {
            lemma_registered_after_register(state, wakers.take(k), id);
        }
    }
    if wakers.len() > 0 {
        let earlier = wakers.drop_last();
        lemma_interest_added_once(state, earlier, id);
        if earlier.len() > 0 {
            lemma_registered_after_register(state, earlier, id);
        }
    }
}

/// No wake after `deregister`. Once an id is deregistered, no readiness event
/// for it calls for a waker, whatever the event reports and whether the OS
/// produced it before the `deregister` or after.
pub proof fn lemma_no_wake_after_deregister<W>(state: ReactorState<W>, id: usize, event: ReadyEvent)
    requires
        event.id == id,
    ensures
        !state.deregister(id).is_registered(id),
        state.deregister(id).waker_for(event) is None,
{
}

/// A batch made of events for a deregistered id calls for no waker at all.
pub proof fn lemma_no_wakes_after_deregister<W>(
    state: ReactorState<W>,
    id: usize,
    batch: Seq<ReadyEvent>,
)
    requires
        forall|i: int| 0 <= i < batch.len() ==> (#[trigger] batch[i]).id == id,
    ensures
        state.deregister(id).wakes(batch) == Seq::<W>::empty(),
    decreases batch.len(),
{
    if batch.len() > 0 {
        lemma_no_wakes_after_deregister(state, id, batch.drop_last());
    }
}

/// Operations on one id do not reach another. Registering or deregistering
/// under `other`, or allocating an id, leaves what an event for a different
/// id calls for as it was.
pub proof fn lemma_other_ids_untouched<W>(
    state: ReactorState<W>,
    waker: W,
    other: usize,
    event: ReadyEvent,
)
    requires
        event.id != other,
    ensures
        state.register(waker, other).waker_for(event) == state.waker_for(event),
        state.deregister(other).waker_for(event) == state.waker_for(event),
        state.allocate().waker_for(event) == state.waker_for(event),
{
}

/// A closed resource wakes nobody. An event that reports both halves of its
/// resource closed calls for no waker, whether its id is registered or not.
pub proof fn lemma_closed_event_wakes_nobody<W>(state: ReactorState<W>, event: ReadyEvent)
    requires
        event.both_closed(),
    ensures
        state.waker_for(event) is None,
{
}

/// A batch made of events that report both halves closed calls for no waker
/// at all.
pub proof fn lemma_closed_batch_wakes_nobody<W>(state: ReactorState<W>, batch: Seq<ReadyEvent>)
    requires
        forall|i: int| 0 <= i < batch.len() ==> (#[trigger] batch[i]).both_closed(),
    ensures
        state.wakes(batch) == Seq::<W>::empty(),
    decreases batch.len(),
{
    if batch.len() > 0 {
        lemma_closed_batch_wakes_nobody(state, batch.drop_last());
    }
}

/// One wake for each live event. Where every event of a batch is for a
/// registered id and none reports both halves closed, the batch calls for
/// exactly one waker per event: the one on file for that event's id, at the
/// event's position.
pub proof fn lemma_one_wake_per_live_event<W>(state: ReactorState<W>, batch: Seq<ReadyEvent>)
    requires
        forall|i: int|
            0 <= i < batch.len() ==> !(#[trigger] batch[i]).both_closed() && state.is_registered(
                batch[i].id,
            ),
    ensures
        state.wakes(batch).len() == batch.len(),
        forall|i: int|
            0 <= i < batch.len() ==> #[trigger] state.wakes(batch)[i] == state.wakers[batch[i].id],
    decreases batch.len(),
{
    if batch.len() > 0 {
        lemma_one_wake_per_live_event(state, batch.drop_last());
    }
}

/// No batch calls for more wakers than it has events.
pub proof fn lemma_at_most_one_wake_per_event<W>(state: ReactorState<W>, batch: Seq<ReadyEvent>)
    ensures
        state.wakes(batch).len() <= batch.len(),
    decreases batch.len(),
{
    if batch.len() > 0 {
        lemma_at_most_one_wake_per_event(state, batch.drop_last());
    }
}

/// Allocating adds one to the counter, modulo the number of values of
/// `usize`.
pub proof fn lemma_allocate_adds_one<W>(state: ReactorState<W>)
    ensures
        state.allocate().next_id as int == (state.next_id + 1) % (usize::MAX + 1),
{
    let modulus = usize::MAX + 1;
    if state.next_id == usize::MAX {
        lemma_mod_self_0(modulus);
    } else {
        lemma_small_mod((state.next_id + 1) as nat, modulus as nat);
    }
}

/// Each cycle moves the counter on by one: after any number of cycles the
/// counter has advanced by their number, modulo the number of values of
/// `usize`.
pub proof fn lemma_counter_after_cycles<W>(state: ReactorState<W>, wakers: Seq<W>)
    ensures
        state.cycles(wakers).next_id as int == (state.next_id + wakers.len()) % (usize::MAX + 1),
    decreases wakers.len(),
{
    let modulus = usize::MAX + 1;
    if wakers.len() == 0 {
        lemma_small_mod(state.next_id as nat, modulus as nat);
    } else {
        let earlier = wakers.drop_last();
        lemma_counter_after_cycles(state, earlier);
        lemma_allocate_adds_one(state.cycles(earlier));
        lemma_add_mod_noop(state.next_id + earlier.len(), 1, modulus);
        lemma_small_mod(1, modulus as nat);
    }
}

/// Ids are never reused. Over a run of allocate, register, deregister
/// cycles, one resource after another, the ids of any two cycles differ.
/// The run may be as long as `usize` has values; a longer one must repeat
/// an id, because the counter has gone all the way round.
pub proof fn lemma_ids_never_reused<W>(state: ReactorState<W>, wakers: Seq<W>, i: int, j: int)
    requires
        wakers.len() <= usize::MAX + 1,
        0 <= i < j < wakers.len(),
    ensures
        state.cycle_id(wakers, i) != state.cycle_id(wakers, j),
{
    let modulus = usize::MAX + 1;
    lemma_counter_after_cycles(state, wakers.take(i));
    lemma_counter_after_cycles(state, wakers.take(j));
    let at_i = state.next_id + i;
    let at_j = state.next_id + j;
    assert(at_j % modulus != at_i % modulus) by {
        lemma_mod_equivalence(at_j, at_i, modulus);
        lemma_small_mod((j - i) as nat, modulus as nat);
    }
}

/// After a run of cycles none of their ids is registered, whatever the table
/// held before.
pub proof fn lemma_cycled_ids_are_free<W>(state: ReactorState<W>, wakers: Seq<W>, k: int)
    requires
        wakers.len() <= usize::MAX + 1,
        0 <= k < wakers.len(),
    ensures
        !state.cycles(wakers).is_registered(state.cycle_id(wakers, k)),
    decreases wakers.len(),
{
    let earlier = wakers.drop_last();
    let last = wakers.len() - 1;
    assert(wakers.take(last) == earlier);
    if k < last {
        assert(earlier.take(k) == wakers.take(k));
        lemma_cycled_ids_are_free(state, earlier, k);
        lemma_ids_never_reused(state, wakers, k, last);
    }
}

/// A stale event cannot wake a later resource. When resources have come and
/// gone and the next one is registered under a newly allocated id, an event
/// left over for any of the earlier ids calls for no waker: the newcomer
/// does not share an id with a resource before it.
pub proof fn lemma_stale_event_wakes_no_successor<W>(
    state: ReactorState<W>,
    wakers: Seq<W>,
    k: int,
    successor: W,
    event: ReadyEvent,
)
    requires
        wakers.len() <= usize::MAX,
        0 <= k < wakers.len(),
        event.id == state.cycle_id(wakers, k),
    ensures
        ({
            let now = state.cycles(wakers);
            now.allocate().register(successor, now.next_id).waker_for(event) is None
        }),
{
    let longer = wakers.push(successor);
    assert(longer.take(k) == wakers.take(k));
    assert(longer.take(wakers.len() as int) == wakers);
    lemma_cycled_ids_are_free(state, wakers, k);
    lemma_ids_never_reused(state, longer, k, wakers.len() as int);
}

} // verus!
