//! The per-event exchange between widgets and the runtime: an outward
//! message buffer, an event-capture status, a redraw request, and a
//! layout-invalidation flag.

use vstd::prelude::*;
use crate::event::{spec_status_merge, Status};
use crate::window::{spec_redraw_min, RedrawRequest};

verus! {

/// A connection to the state of the update pass. A widget publishes messages
/// into it, captures the current event, requests redraws, or invalidates the
/// layout; capture is monotonic within one traversal.
#[derive(Debug)]
pub struct Shell<Message> {
    messages: Vec<Message>,
    event_status: Status,
    redraw_request: RedrawRequest,
    is_layout_invalid: bool,
}

/// The relation `Shell::merge` establishes between the parent shell before
/// the merge, the child shell, the mapping function, and the parent shell
/// after: the child's messages are appended through the mapping in order,
/// capture anywhere captures, redraw requests combine to the sooner deadline
/// (a `NextFrame` from either side survives), and invalidation flags combine
/// by disjunction. No signal from the child is lost or downgraded.
pub open spec fn merged<B, Message, F: Fn(B) -> Message>(
    before: Shell<Message>,
    child: Shell<B>,
    f: F,
    after: Shell<Message>,
) -> bool {
    &&& after.messages_view().len() == before.messages_view().len()
        + child.messages_view().len()
    &&& (forall|i: int| 0 <= i < before.messages_view().len()
        ==> after.messages_view()[i] == before.messages_view()[i])
    &&& (forall|i: int| 0 <= i < child.messages_view().len()
        ==> call_ensures(f, (child.messages_view()[i],),
            after.messages_view()[before.messages_view().len() + i]))
    &&& after.status() == spec_status_merge(before.status(), child.status())
    &&& after.redraw() == spec_redraw_min(before.redraw(), child.redraw())
    &&& after.invalid() == (before.invalid() || child.invalid())
}

impl<Message> Shell<Message> {
    /// The messages published so far, oldest first.
    pub closed spec fn messages_view(&self) -> Seq<Message> {
        self.messages@
    }

    /// The capture status of the current event.
    pub closed spec fn status(&self) -> Status {
        self.event_status
    }

    /// The redraw request aggregated so far.
    pub closed spec fn redraw(&self) -> RedrawRequest {
        self.redraw_request
    }

    /// Whether the layout has been invalidated.
    pub closed spec fn invalid(&self) -> bool {
        self.is_layout_invalid
    }

    /// Creates a new shell around the given buffer of messages: nothing
    /// captured, no redraw wanted, layout valid.
    pub fn new(messages: Vec<Message>) -> (s: Shell<Message>)
        ensures
            s.messages_view() == messages@,
            s.status() == Status::Ignored,
            s.redraw() == RedrawRequest::Wait,
            !s.invalid(),
    {
        Shell {
            messages,
            event_status: Status::Ignored,
            redraw_request: RedrawRequest::Wait,
            is_layout_invalid: false,
        }
    }

    /// Returns whether the shell holds no messages.
    pub fn is_empty(&self) -> (r: bool)
        ensures
            r == (self.messages_view().len() == 0),
    {
        self.messages.is_empty()
    }

    /// Hands the message buffer back, consuming the shell.
    pub fn into_messages(self) -> (r: Vec<Message>)
        ensures
            r@ == self.messages_view(),
    {
        self.messages
    }

    /// Publishes a message for the application to process.
    pub fn publish(&mut self, message: Message)
        ensures
            final(self).messages_view() == old(self).messages_view().push(message),
            final(self).status() == old(self).status(),
            final(self).redraw() == old(self).redraw(),
            final(self).invalid() == old(self).invalid(),
    {
        self.messages.push(message);
    }

    /// Marks the current event as captured, preventing event bubbling; a
    /// capture cannot be undone within the traversal.
    pub fn capture_event(&mut self)
        ensures
            final(self).messages_view() == old(self).messages_view(),
            final(self).status() == Status::Captured,
            final(self).redraw() == old(self).redraw(),
            final(self).invalid() == old(self).invalid(),
    {
        self.event_status = Status::Captured;
    }

    /// Returns the current capture status.
    pub fn event_status(&self) -> (r: Status)
        ensures
            r == self.status(),
    {
        self.event_status
    }

    /// Returns whether the current event has been captured.
    pub fn is_event_captured(&self) -> (r: bool)
        ensures
            r == (self.status() == Status::Captured),
    {
        match self.event_status {
            Status::Captured => true,
            Status::Ignored => false,
        }
    }

    /// Requests that a new frame be drawn as soon as possible.
    pub fn request_redraw(&mut self)
        ensures
            final(self).messages_view() == old(self).messages_view(),
            final(self).status() == old(self).status(),
            final(self).redraw() == RedrawRequest::NextFrame,
            final(self).invalid() == old(self).invalid(),
    {
        self.redraw_request = RedrawRequest::NextFrame;
    }

    /// Returns the redraw request aggregated so far.
    pub fn redraw_request(&self) -> (r: RedrawRequest)
        ensures
            r == self.redraw(),
    {
        self.redraw_request
    }

    /// Returns whether the current layout is invalid.
    pub fn is_layout_invalid(&self) -> (r: bool)
        ensures
            r == self.invalid(),
    {
        self.is_layout_invalid
    }

    /// Invalidates the current layout; the runtime will recompute it before
    /// processing the next event.
    pub fn invalidate_layout(&mut self)
        ensures
            final(self).messages_view() == old(self).messages_view(),
            final(self).status() == old(self).status(),
            final(self).redraw() == old(self).redraw(),
            final(self).invalid(),
    {
        self.is_layout_invalid = true;
    }

    /// Clears the invalidation flag and reports whether it was set; the
    /// caller relayouts exactly when it was.
    pub fn revalidate_layout(&mut self) -> (was_invalid: bool)
        ensures
            was_invalid == old(self).invalid(),
            final(self).messages_view() == old(self).messages_view(),
            final(self).status() == old(self).status(),
            final(self).redraw() == old(self).redraw(),
            !final(self).invalid(),
    {
        let was = self.is_layout_invalid;
        self.is_layout_invalid = false;
        was
    }

    /// Merges a child shell into this one, mapping each of the child's
    /// messages through `f` in order. No message, capture, redraw request,
    /// or invalidation from the child is lost.
    pub fn merge<B, F: Fn(B) -> Message>(&mut self, other: Shell<B>, f: F)
        requires
            forall|i: int| 0 <= i < other.messages_view().len() ==> call_requires(
                f,
                (other.messages_view()[i],),
            ),
        ensures
            merged(*old(self), other, f, *final(self)),
    {
        let Shell { messages, event_status, redraw_request, is_layout_invalid } = other;
        let mut rest = messages;
        let ghost orig = rest@;
        proof {
            assert(orig == other.messages_view());
            assert(event_status == other.status());
            assert(redraw_request == other.redraw());
            assert(is_layout_invalid == other.invalid());
        }
        while rest.len() > 0
            invariant
                forall|i: int| 0 <= i < orig.len() ==> call_requires(f, (#[trigger] orig[i],)),
                rest@.len() <= orig.len(),
                rest@ =~= orig.subrange(orig.len() - rest@.len(), orig.len() as int),
                self.messages@.len() == old(self).messages@.len() + orig.len() - rest@.len(),
                forall|i: int| 0 <= i < old(self).messages@.len()
                    ==> self.messages@[i] == old(self).messages@[i],
                forall|i: int| 0 <= i < orig.len() - rest@.len() ==> call_ensures(
                    f,
                    (orig[i],),
                    self.messages@[old(self).messages@.len() + i],
                ),
                self.event_status == old(self).event_status,
                self.redraw_request == old(self).redraw_request,
                self.is_layout_invalid == old(self).is_layout_invalid,
            decreases rest@.len(),
        {
            let ghost done = orig.len() - rest@.len();
            let m = rest.remove(0);
            proof {
                assert(orig.subrange(done as int, orig.len() as int)[0] == orig[done as int]);
                assert(m == orig[done as int]);
                assert(rest@ =~= orig.subrange(done as int + 1, orig.len() as int));
            }
            let mapped = f(m);
            self.messages.push(mapped);
        }
        self.is_layout_invalid = self.is_layout_invalid || is_layout_invalid;
        self.redraw_request = self.redraw_request.min(redraw_request);
        self.event_status = self.event_status.merge(event_status);
    }
}

/// Shell-merge law: merging a child shell that captured the event, asked for
/// the next frame, and published one message `m` into a parent shell that
/// had ignored the event and was waiting yields a parent shell that has
/// captured, asks for the next frame, stays layout-valid, and carries
/// exactly one new message, an image of `m` under the mapping. No signal
/// from the child is lost or downgraded.
pub proof fn lemma_merge_signals<B, Message, F: Fn(B) -> Message>(
    before: Shell<Message>,
    child: Shell<B>,
    f: F,
    after: Shell<Message>,
    m: B,
)
    requires
        merged(before, child, f, after),
        before.status() == Status::Ignored,
        before.redraw() == RedrawRequest::Wait,
        !before.invalid(),
        child.status() == Status::Captured,
        child.redraw() == RedrawRequest::NextFrame,
        !child.invalid(),
        child.messages_view() == seq![m],
    ensures
        after.status() == Status::Captured,
        after.redraw() == RedrawRequest::NextFrame,
        !after.invalid(),
        after.messages_view().len() == before.messages_view().len() + 1,
        call_ensures(f, (m,), after.messages_view().last()),
{
    assert(child.messages_view()[0] == m);
    assert(child.messages_view().len() == 1);
    assert(call_ensures(f, (child.messages_view()[0],), after.messages_view()[
        before.messages_view().len() as int + 0]));
    assert(after.messages_view().last() == after.messages_view()[before.messages_view().len()
        as int]);
}

} // verus!
