//! User-interface events and their processing status.

use vstd::prelude::*;
use crate::mouse;
use crate::window;

verus! {

/// A user-interface event.
#[derive(Debug, Clone, Copy, PartialEq, Eq, Structural)]
pub enum Event {
    /// A mouse event.
    Mouse(mouse::Event),
    /// A window event.
    Window(window::Event),
}

/// The status of an event after being processed.
#[derive(Debug, Clone, Copy, PartialEq, Eq, Structural)]
pub enum Status {
    /// No widget handled the event.
    Ignored,
    /// A widget handled and captured the event.
    Captured,
}

/// The combination of two statuses: `Captured` wins over `Ignored`.
pub open spec fn spec_status_merge(a: Status, b: Status) -> Status {
    match a {
        Status::Ignored => b,
        Status::Captured => Status::Captured,
    }
}

impl Status {
    /// Merges two statuses; `Captured` takes precedence.
    pub fn merge(self, b: Status) -> (r: Status)
        ensures
            r == spec_status_merge(self, b),
    {
        match self {
            Status::Ignored => b,
            Status::Captured => Status::Captured,
        }
    }
}

} // verus!
