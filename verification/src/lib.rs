//! A reactor core: the bookkeeping that connects OS readiness notifications to
//! the wakers of suspended tasks.
//!
//! The crate holds the decisions of a reactor and none of its waiting. A
//! [`Reactor`] keeps the table from registration id to current waker and the
//! counter that hands out ids. Its methods say what the caller has to ask of
//! the OS multiplexer (`register` reports whether the id is new) and which
//! wakers a batch of readiness events calls for (`dispatch`). Blocking on the
//! multiplexer, talking to the OS and invoking the wakers are left to the
//! program that owns the reactor.
//!
//! Every contract is stated over [`ReactorState`], the mathematical model of a
//! reactor in [`model`]. What holds across several calls is proved in [`laws`]
//! and, for arbitrary interleavings of operations, in [`history`]. The module
//! [`polled`] reads readiness events out of a `mio::Events` buffer; it holds
//! the only items of the crate that are believed without proof.

pub mod event;
pub mod history;
pub mod laws;
pub mod model;
pub mod polled;
pub mod reactor;

pub use event::ReadyEvent;
pub use model::ReactorState;
pub use polled::{event_buffer, reported, EVENT_CAPACITY};
pub use reactor::{start, Reactor};
