//! The per-frame orchestration: build a user interface from a widget tree
//! and the previous frame's cache, feed events through it, and extract the
//! state tree for the next frame. Also the window-content sizing and
//! positioning rules a host applies around the root layout.

use vstd::prelude::*;
use crate::event::Event;
use crate::geometry::{sat_sub, sat_sub_spec, Limits, Size};
use crate::layout::{Node, NodeModel, TextMeasurer};
use crate::geometry::Point;
use crate::mouse::{Cursor, Interaction};
use crate::shell::Shell;
use crate::tree::{Tree, TreeModel};
use crate::widget::{diff_tree, spec_diff, spec_elem_layout, spec_update, Element};
use crate::window::{spec_redraw_min, RedrawRequest};

verus! {

/// The state tree a host carries from one frame to the next; it must not be
/// mutated between frames.
#[derive(Debug)]
pub struct Cache {
    pub state: Tree,
}

impl Cache {
    /// An empty cache, for the very first frame.
    pub fn new() -> (c: Cache)
        ensures
            c.state.model() == (TreeModel {
                tag: crate::tree::Tag(0),
                state: crate::tree::StateModel::Vacant,
                children: Seq::empty(),
            }),
    {
        Cache { state: Tree::empty() }
    }
}

impl Default for Cache {
    fn default() -> (c: Cache)
        ensures
            c.state.model() == (TreeModel {
                tag: crate::tree::Tag(0),
                state: crate::tree::StateModel::Vacant,
                children: Seq::empty(),
            }),
    {
        Cache::new()
    }
}

/// The messages all events publish, concatenated in event order.
pub open spec fn spec_update_all<Message>(
    root: Element<Message>,
    base: NodeModel,
    cursor: Point,
    events: Seq<Event>,
) -> Seq<Message>
    decreases events,
{
    if events.len() == 0 {
        Seq::empty()
    } else {
        spec_update_all(root, base, cursor, events.drop_last()) + spec_update(
            root,
            base,
            cursor,
            events.last(),
        ).0
    }
}

/// The redraw request the update pass returns: the fold, starting from
/// `Wait`, of each event's own request, combining to the sooner deadline —
/// `NextFrame` as soon as any event asks for it.
pub open spec fn spec_redraw_fold<Message>(
    root: Element<Message>,
    base: NodeModel,
    cursor: Point,
    events: Seq<Event>,
) -> RedrawRequest
    decreases events,
{
    if events.len() == 0 {
        RedrawRequest::Wait
    } else {
        spec_redraw_min(spec_redraw_fold(root, base, cursor, events.drop_last()), if spec_update(
            root,
            base,
            cursor,
            events.last(),
        ).1 {
            RedrawRequest::NextFrame
        } else {
            RedrawRequest::Wait
        })
    }
}

/// A set of interactive elements with a computed layout: one widget tree,
/// its base layout node, its state tree, and the bounds it was built for.
pub struct UserInterface<Message> {
    root: Element<Message>,
    base: Node,
    state: Tree,
    bounds: Size,
}

impl<Message> UserInterface<Message> {
    /// The widget tree this interface drives.
    pub closed spec fn root_spec(&self) -> Element<Message> {
        self.root
    }

    /// The computed base layout.
    pub closed spec fn base_model(&self) -> NodeModel {
        self.base.model()
    }

    /// The reconciled state tree.
    pub closed spec fn state_model(&self) -> TreeModel {
        self.state.model()
    }

    /// The bounds the interface was built for.
    pub closed spec fn bounds_spec(&self) -> Size {
        self.bounds
    }

    /// Builds a user interface for a widget tree: the cache's state tree is
    /// reconciled against the tree in place, then one layout pass runs
    /// against loose limits at the given bounds.
    pub fn build<M: TextMeasurer>(
        root: Element<Message>,
        bounds: Size,
        cache: Cache,
        measurer: &M,
    ) -> (ui: UserInterface<Message>)
        ensures
            ui.root_spec() == root,
            ui.state_model() == spec_diff(cache.state.model(), root),
            ui.base_model() == spec_elem_layout(
                root,
                Limits {
                    min_width: 0,
                    min_height: 0,
                    max_width: bounds.width,
                    max_height: bounds.height,
                },
                (|t: Seq<char>, fs: u32| measurer.spec_measure(t, fs)),
            ),
            ui.bounds_spec() == bounds,
    {
        let Cache { state: mut state } = cache;
        diff_tree(&mut state, &root);
        let base = root.layout(Limits::new(Size::new(0, 0), bounds), measurer);
        UserInterface { root, base, state, bounds }
    }

    /// Extracts the state tree for reuse by the next frame's build; the
    /// widget tree and the layout are discarded.
    pub fn into_cache(self) -> (c: Cache)
        ensures
            c.state.model() == self.state_model(),
    {
        Cache { state: self.state }
    }
}

impl<Message: Copy> UserInterface<Message> {
    /// Processes each event in order against the widget tree: every message
    /// published lands in `messages` in order, the per-event redraw requests
    /// fold to the soonest deadline requested, and the layout is recomputed
    /// before the next event whenever a widget invalidated it.
    pub fn update<M: TextMeasurer>(
        &mut self,
        events: &[Event],
        cursor: Cursor,
        measurer: &M,
        messages: &mut Vec<Message>,
    ) -> (r: RedrawRequest)
        ensures
            final(self).root_spec() == old(self).root_spec(),
            final(self).state_model() == old(self).state_model(),
            final(self).bounds_spec() == old(self).bounds_spec(),
            final(self).base_model() == old(self).base_model(),
            final(messages)@ == old(messages)@ + spec_update_all(
                old(self).root_spec(),
                old(self).base_model(),
                cursor.position,
                events@,
            ),
            r == spec_redraw_fold(
                old(self).root_spec(),
                old(self).base_model(),
                cursor.position,
                events@,
            ),
    {
        let ghost root0 = self.root;
        let ghost base0 = self.base.model();
        let mut redraw = RedrawRequest::Wait;
        let mut i: usize = 0;
        while i < events.len()
            invariant
                0 <= i <= events@.len(),
                self.root == root0,
                root0 == old(self).root_spec(),
                base0 == old(self).base_model(),
                self.base.model() == base0,
                self.state == old(self).state,
                self.bounds == old(self).bounds,
                messages@ == old(messages)@ + spec_update_all(
                    root0,
                    base0,
                    cursor.position,
                    events@.take(i as int),
                ),
                redraw == spec_redraw_fold(root0, base0, cursor.position, events@.take(i as int)),
            decreases events@.len() - i,
        {
            let mut shell: Shell<Message> = Shell::new(Vec::new());
            let _status = self.root.update(&self.base, cursor, &events[i], &mut shell);
            redraw = redraw.min(shell.redraw_request());
            if shell.is_layout_invalid() {
                // A widget invalidated the layout: clear the flag and
                // recompute the base before the next event.
                let was = shell.revalidate_layout();
                if was {
                    self.base = self.root.layout(
                        Limits::new(Size::new(0, 0), self.bounds),
                        measurer,
                    );
                }
            }
            let mut out = shell.into_messages();
            messages.append(&mut out);
            proof {
                assert(events@.take(i as int + 1).drop_last() =~= events@.take(i as int));
                assert(events@.take(i as int + 1).last() == events@[i as int]);
                assert(messages@ =~= old(messages)@ + spec_update_all(root0, base0,
                    cursor.position, events@.take(i as int + 1)));
            }
            i = i + 1;
        }
        proof {
            assert(events@.take(events@.len() as int) =~= events@);
        }
        redraw
    }

    /// Produces the display list of the interface: the widget tree walked
    /// together with its layout, in absolute coordinates.
    pub fn draw(&self) -> (r: Vec<crate::render::DrawCommand>)
        ensures
            crate::render::command_models_of(r@) == crate::render::spec_elem_display(
                self.root_spec(),
                self.base_model(),
                0,
                0,
            ),
    {
        crate::render::elem_display_list(&self.root, &self.base, 0, 0)
    }

    /// The mouse interaction the widget under the cursor shows.
    pub fn mouse_interaction(&self, cursor: Cursor) -> (r: Interaction)
        ensures
            r == (if spec_update(
                self.root_spec(),
                self.base_model(),
                cursor.position,
                Event::Mouse(crate::mouse::Event::ButtonPressed {
                    button: crate::mouse::Button::Left,
                    position: cursor.position,
                }),
            ).1 {
                Interaction::Pointer
            } else {
                Interaction::Idle
            }),
    {
        self.root.mouse_interaction(&self.base, cursor)
    }
}

/// How the window content determines its layout limits.
#[derive(Debug, Clone, Copy, PartialEq, Eq, Structural)]
pub enum ContentSizing {
    /// Loose limits at the window size; content takes its natural size.
    Auto,
    /// Exact limits at the window size; content fills the window.
    FillWindow,
    /// Exact limits at the given size.
    Fixed(u32, u32),
    /// At least the given size, at most the window.
    Minimum(u32, u32),
}

/// Where the content sits inside the window when it does not fill it.
#[derive(Debug, Clone, Copy, PartialEq, Eq, Structural)]
pub enum ContentPosition {
    /// Top left.
    Leading,
    /// Centered on both axes.
    Center,
    /// Bottom right.
    Trailing,
    /// Centered horizontally, at the top.
    TopCenter,
    /// Centered horizontally, at the bottom.
    BottomCenter,
}

/// The limits a sizing mode gives the content for a window of the given
/// size.
pub open spec fn spec_content_limits(sizing: ContentSizing, width: u32, height: u32) -> Limits {
    match sizing {
        ContentSizing::Auto => Limits {
            min_width: 0,
            min_height: 0,
            max_width: width,
            max_height: height,
        },
        ContentSizing::FillWindow => Limits {
            min_width: width,
            min_height: height,
            max_width: width,
            max_height: height,
        },
        ContentSizing::Fixed(w, h) => Limits {
            min_width: w,
            min_height: h,
            max_width: w,
            max_height: h,
        },
        ContentSizing::Minimum(w, h) => Limits {
            min_width: w,
            min_height: h,
            max_width: width,
            max_height: height,
        },
    }
}

/// Returns the limits the content is laid out against for a window of the
/// given size.
pub fn content_limits(sizing: ContentSizing, width: u32, height: u32) -> (r: Limits)
    ensures
        r == spec_content_limits(sizing, width, height),
{
    match sizing {
        ContentSizing::Auto => Limits {
            min_width: 0,
            min_height: 0,
            max_width: width,
            max_height: height,
        },
        ContentSizing::FillWindow => Limits {
            min_width: width,
            min_height: height,
            max_width: width,
            max_height: height,
        },
        ContentSizing::Fixed(w, h) => Limits {
            min_width: w,
            min_height: h,
            max_width: w,
            max_height: h,
        },
        ContentSizing::Minimum(w, h) => Limits {
            min_width: w,
            min_height: h,
            max_width: width,
            max_height: height,
        },
    }
}

/// The offset that places content of the given size inside the window per
/// the position policy: leftover space (floored at zero) split accordingly.
pub open spec fn spec_content_offset(
    position: ContentPosition,
    content_width: u32,
    content_height: u32,
    window_width: u32,
    window_height: u32,
) -> (int, int) {
    let extra_w = sat_sub_spec(window_width as int, content_width as int);
    let extra_h = sat_sub_spec(window_height as int, content_height as int);
    match position {
        ContentPosition::Leading => (0, 0),
        ContentPosition::Center => (extra_w / 2, extra_h / 2),
        ContentPosition::Trailing => (extra_w, extra_h),
        ContentPosition::TopCenter => (extra_w / 2, 0),
        ContentPosition::BottomCenter => (extra_w / 2, extra_h),
    }
}

/// Computes where the content sits inside the window. Content larger than
/// the window stays pinned at the leading edge rather than moving to
/// negative offsets.
pub fn content_offset(
    position: ContentPosition,
    content_width: u32,
    content_height: u32,
    window_width: u32,
    window_height: u32,
) -> (r: (u32, u32))
    ensures
        (r.0 as int, r.1 as int) == spec_content_offset(
            position,
            content_width,
            content_height,
            window_width,
            window_height,
        ),
{
    let extra_w = sat_sub(window_width, content_width);
    let extra_h = sat_sub(window_height, content_height);
    match position {
        ContentPosition::Leading => (0, 0),
        ContentPosition::Center => (extra_w / 2, extra_h / 2),
        ContentPosition::Trailing => (extra_w, extra_h),
        ContentPosition::TopCenter => (extra_w / 2, 0),
        ContentPosition::BottomCenter => (extra_w / 2, extra_h),
    }
}

} // verus!
