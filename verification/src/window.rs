//! Window events and redraw requests.

use vstd::prelude::*;

verus! {

/// A window event.
#[derive(Debug, Clone, Copy, PartialEq, Eq, Structural)]
pub enum Event {
    /// The window was resized to the new size in logical pixels.
    Resized { width: u32, height: u32 },
    /// A redraw was requested.
    RedrawRequested,
    /// Closing the window was requested.
    CloseRequested,
}

/// A request for when to redraw. A request is a deadline: `NextFrame` comes
/// before `Wait` (which stands for "no deadline").
#[derive(Debug, Clone, Copy, PartialEq, Eq, Structural)]
pub enum RedrawRequest {
    /// Wait for the next event.
    Wait,
    /// Redraw on the next frame.
    NextFrame,
}

/// The combination of two redraw requests: the sooner deadline of the two,
/// so `NextFrame` whenever either side asks for it. A request, once made, is
/// never downgraded by combining.
pub open spec fn spec_redraw_min(a: RedrawRequest, b: RedrawRequest) -> RedrawRequest {
    match (a, b) {
        (RedrawRequest::Wait, RedrawRequest::Wait) => RedrawRequest::Wait,
        _ => RedrawRequest::NextFrame,
    }
}

impl RedrawRequest {
    /// Returns the minimum of two redraw requests: the sooner deadline.
    pub fn min(self, other: RedrawRequest) -> (r: RedrawRequest)
        ensures
            r == spec_redraw_min(self, other),
    {
        match (self, other) {
            (RedrawRequest::Wait, RedrawRequest::Wait) => RedrawRequest::Wait,
            _ => RedrawRequest::NextFrame,
        }
    }
}

} // verus!
