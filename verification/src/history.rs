//! Laws over whole histories: what a reactor answers after any sequence of
//! operations, on whatever ids, in whatever order.

use vstd::prelude::*;
use vstd::arithmetic::div_mod::{lemma_add_mod_noop, lemma_mod_equivalence, lemma_small_mod};
use crate::event::ReadyEvent;
use crate::laws::lemma_allocate_adds_one;
use crate::model::ReactorState;

verus! {

/// One operation on a reactor's state, as a value.
pub enum Operation<W> {
    /// `register(waker, id)`.
    Register { waker: W, id: usize },
    /// `deregister(id)`.
    Deregister { id: usize },
    /// `next_id()`.
    Allocate,
}

impl<W> Operation<W> {
    /// Whether the operation registers a waker under `id`.
    pub open spec fn registers(self, id: usize) -> bool {
        match self {
            Operation::Register { waker: _, id: own } => own == id,
            _ => false,
        }
    }

    /// Whether the operation deregisters `id`.
    pub open spec fn deregisters(self, id: usize) -> bool {
        match self {
            Operation::Deregister { id: own } => own == id,
            _ => false,
        }
    }

    /// Whether the operation registers or deregisters `id`.
    pub open spec fn touches(self, id: usize) -> bool {
        self.registers(id) || self.deregisters(id)
    }
}

/// How many ids the operations of `history` allocate.
pub open spec fn allocations<W>(history: Seq<Operation<W>>) -> nat
    decreases history.len(),
{
    if history.len() == 0 {
        0
    } else if history.last() is Allocate {
        allocations(history.drop_last()) + 1
    } else {
        allocations(history.drop_last())
    }
}

impl<W> ReactorState<W> {
    /// The state after one operation.
    pub open spec fn apply(self, operation: Operation<W>) -> Self {
        match operation {
            Operation::Register { waker, id } => self.register(waker, id),
            Operation::Deregister { id } => self.deregister(id),
            Operation::Allocate => self.allocate(),
        }
    }

    /// The state after the operations of `history`, first to last.
    pub open spec fn run(self, history: Seq<Operation<W>>) -> Self
        decreases history.len(),
    {
        if history.len() == 0 {
            self
        } else {
            self.run(history.drop_last()).apply(history.last())
        }
    }
}

/// Whether no operation of `history` after position `from` touches `id`.
pub open spec fn untouched_after<W>(history: Seq<Operation<W>>, from: int, id: usize) -> bool {
    forall|later: int| from < later < history.len() ==> !(#[trigger] history[later]).touches(id)
}

/// Whether no operation of `history` after position `from` registers a waker
/// under `id`.
pub open spec fn unregistered_after<W>(history: Seq<Operation<W>>, from: int, id: usize) -> bool {
    forall|later: int| from < later < history.len() ==> !(#[trigger] history[later]).registers(id)
}

/// A history that never touches an id leaves the answer for that id as it
/// was: same waker, or none as before.
pub proof fn lemma_untouched_id_keeps_its_answer<W>(
    state: ReactorState<W>,
    history: Seq<Operation<W>>,
    event: ReadyEvent,
)
    requires
        untouched_after(history, -1, event.id),
    ensures
        state.run(history).waker_for(event) == state.waker_for(event),
    decreases history.len(),
{
    if history.len() > 0 {
        let earlier = history.drop_last();
        lemma_untouched_id_keeps_its_answer(state, earlier, event);
    }
}

/// The latest registration decides, whatever else happens. If a history
/// registers `waker` under an id and touches that id no more, then after the
/// history an event for the id that reports an open resource calls for
/// `waker`.
pub proof fn lemma_latest_registration_decides<W>(
    state: ReactorState<W>,
    history: Seq<Operation<W>>,
    at: int,
    waker: W,
    event: ReadyEvent,
)
    requires
        0 <= at < history.len(),
        history[at] == (Operation::Register { waker, id: event.id }),
        untouched_after(history, at, event.id),
        !event.both_closed(),
    ensures
        state.run(history).waker_for(event) == Some(waker),
    decreases history.len(),
{
    let earlier = history.drop_last();
    if at < history.len() - 1 {
        lemma_latest_registration_decides(state, earlier, at, waker, event);
    }
}

/// A deregistration lasts, whatever else happens. If a history deregisters
/// an id and registers nothing under that id afterwards, then after the
/// history no event for the id calls for a waker.
pub proof fn lemma_deregistration_lasts<W>(
    state: ReactorState<W>,
    history: Seq<Operation<W>>,
    at: int,
    event: ReadyEvent,
)
    requires
        0 <= at < history.len(),
        history[at] == (Operation::<W>::Deregister { id: event.id }),
        unregistered_after(history, at, event.id),
    ensures
        state.run(history).waker_for(event) is None,
    decreases history.len(),
{
    let earlier = history.drop_last();
    if at < history.len() - 1 {
        lemma_deregistration_lasts(state, earlier, at, event);
    }
}

/// An id stays registered until it is deregistered, whatever else happens.
/// If a history registers a waker under an id, then up to the next
/// deregistration of that id every state has the id registered: a further
/// `register` under it is never new, and asks for no second interest.
pub proof fn lemma_registered_until_deregistered<W>(
    state: ReactorState<W>,
    history: Seq<Operation<W>>,
    at: int,
    upto: int,
    id: usize,
)
    requires
        0 <= at < upto <= history.len(),
        history[at].registers(id),
        forall|later: int| at < later < upto ==> !(#[trigger] history[later]).deregisters(id),
    ensures
        state.run(history.take(upto)).is_registered(id),
    decreases upto,
{
    let reached = history.take(upto);
    assert(reached.drop_last() == history.take(upto - 1));
    assert(reached.last() == history[upto - 1]);
    if at < upto - 1 {
        lemma_registered_until_deregistered(state, history, at, upto - 1, id);
    }
}

/// The counter after a history has advanced by the number of allocations in
/// it, modulo the number of values of `usize`.
pub proof fn lemma_counter_after_history<W>(state: ReactorState<W>, history: Seq<Operation<W>>)
    ensures
        state.run(history).next_id as int == (state.next_id + allocations(history)) % (usize::MAX
            + 1),
    decreases history.len(),
{
    let modulus = usize::MAX + 1;
    if history.len() == 0 {
        lemma_small_mod(state.next_id as nat, modulus as nat);
    } else {
        let earlier = history.drop_last();
        lemma_counter_after_history(state, earlier);
        if history.last() is Allocate {
            lemma_allocate_adds_one(state.run(earlier));
            lemma_add_mod_noop(state.next_id + allocations(earlier), 1, modulus);
            lemma_small_mod(1, modulus as nat);
        }
    }
}

/// A longer prefix of a history holds at least the allocations of a shorter
/// one, and one more where the operation at the shorter one's end allocates.
pub proof fn lemma_allocations_grow<W>(history: Seq<Operation<W>>, i: int, j: int)
    requires
        0 <= i <= j <= history.len(),
    ensures
        allocations(history.take(i)) <= allocations(history.take(j)),
        i < j && history[i] is Allocate ==> allocations(history.take(i)) < allocations(
            history.take(j),
        ),
    decreases j - i,
{
    if i < j {
        assert(history.take(j).drop_last() == history.take(j - 1));
        assert(history.take(j).last() == history[j - 1]);
        lemma_allocations_grow(history, i, j - 1);
    }
}

/// Ids are never reused, whatever else happens. The ids that two allocations
/// of one history return differ, as long as the history allocates no more
/// ids than `usize` has values.
pub proof fn lemma_allocated_ids_differ<W>(
    state: ReactorState<W>,
    history: Seq<Operation<W>>,
    i: int,
    j: int,
)
    requires
        0 <= i < j < history.len(),
        history[i] is Allocate,
        history[j] is Allocate,
        allocations(history) <= usize::MAX + 1,
    ensures
        state.run(history.take(i)).next_id != state.run(history.take(j)).next_id,
{
    let modulus = usize::MAX + 1;
    let before_i = allocations(history.take(i));
    let before_j = allocations(history.take(j));
    lemma_allocations_grow(history, i, j);
    lemma_allocations_grow(history, j, history.len() as int);
    assert(history.take(history.len() as int) == history);
    lemma_counter_after_history(state, history.take(i));
    lemma_counter_after_history(state, history.take(j));
    assert((state.next_id + before_j) % modulus != (state.next_id + before_i) % modulus) by {
        lemma_mod_equivalence(state.next_id + before_j, state.next_id + before_i, modulus);
        lemma_small_mod((before_j - before_i) as nat, modulus as nat);
    }
}

} // verus!
