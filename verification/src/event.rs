//! Readiness events as plain values.

use vstd::prelude::*;

verus! {

/// One readiness notification of the OS multiplexer: the id under which the
/// resource was registered, and whether each half of the resource is closed.
#[derive(Clone, Copy, Debug, PartialEq, Eq, Structural)]
pub struct ReadyEvent {
    /// The id that the resource was registered under.
    pub id: usize,
    /// The read half of the resource is closed.
    pub read_closed: bool,
    /// The write half of the resource is closed.
    pub write_closed: bool,
}

impl ReadyEvent {
    /// Both halves of the resource are closed: the peer hung up or the
    /// resource is gone. Such an event is no readiness signal.
    pub open spec fn spec_both_closed(self) -> bool {
        self.read_closed && self.write_closed
    }

    /// Whether both halves of the resource are closed.
    #[verifier::when_used_as_spec(spec_both_closed)]
    pub fn both_closed(self) -> (closed: bool)
        ensures
            closed == (self.read_closed && self.write_closed),
    {
        self.read_closed && self.write_closed
    }
}

} // verus!
