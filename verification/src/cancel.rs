//! The cancellation slot: a single-owner holder of at most one pending
//! cancel handle.
//!
//! Each search installs its handle at start, replacing — never merging
//! with — any previous occupant; only one session is supported at a time,
//! and a new session silently takes over cancellation control. A cancel
//! request takes the occupant out, so a second request, or one issued
//! after the search ended, finds the slot empty and is a harmless no-op.
//! The host guards the slot with a mutex; the slot itself is single
//! threaded.

use vstd::prelude::*;

verus! {

/// A holder of at most one pending cancel handle.
pub struct CancelSlot<T> {
    /// The handle of the search currently in flight, if any.
    pub occupant: Option<T>,
}

impl<T> CancelSlot<T> {
    /// A slot with no search in flight.
    pub fn empty() -> (s: Self)
        ensures
            s.occupant is None,
    {
        CancelSlot { occupant: None }
    }

    /// Install the handle of a starting search, returning the previous
    /// occupant, which is thereby disconnected from its session.
    pub fn install(&mut self, handle: T) -> (prev: Option<T>)
        ensures
            final(self).occupant == Some(handle),
            prev == old(self).occupant,
    {
        let prev = self.occupant.take();
        self.occupant = Some(handle);
        prev
    }

    /// Take the pending handle to signal it; afterwards the slot is empty,
    /// so taking from an empty slot is a no-op that yields nothing.
    pub fn take(&mut self) -> (t: Option<T>)
        ensures
            final(self).occupant is None,
            t == old(self).occupant,
    {
        self.occupant.take()
    }
}

} // verus!
