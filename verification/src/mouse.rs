//! Mouse input: cursor state, interactions, and mouse events.

use vstd::prelude::*;
use crate::geometry::{Point, Rectangle};

verus! {

/// The current state of the mouse cursor.
#[derive(Debug, Clone, Copy, PartialEq, Eq, Structural, Default)]
pub struct Cursor {
    /// The position of the cursor, relative to the window.
    pub position: Point,
}

/// Whether a point lies inside a rectangle (left and top edges inclusive,
/// right and bottom exclusive).
pub open spec fn spec_over(position: Point, bounds: Rectangle) -> bool {
    position.x >= bounds.x && position.x < bounds.x + bounds.width && position.y >= bounds.y
        && position.y < bounds.y + bounds.height
}

impl Cursor {
    pub fn new(position: Point) -> (c: Cursor)
        ensures
            c == (Cursor { position }),
    {
        Cursor { position }
    }

    /// Returns whether the cursor is over the given bounds.
    pub fn is_over(&self, bounds: Rectangle) -> (r: bool)
        ensures
            r == spec_over(self.position, bounds),
    {
        self.position.x >= bounds.x as i64 && self.position.x < bounds.x as i64
            + bounds.width as i64 && self.position.y >= bounds.y as i64 && self.position.y
            < bounds.y as i64 + bounds.height as i64
    }
}

/// The visual interaction of the mouse cursor.
#[derive(Debug, Clone, Copy, PartialEq, Eq, Structural, Default)]
pub enum Interaction {
    /// The default cursor.
    #[default]
    Idle,
    /// A pointer (hand) cursor.
    Pointer,
    /// A grab cursor.
    Grab,
    /// A grabbing cursor.
    Grabbing,
    /// A text-selection cursor.
    Text,
}

/// A mouse button.
#[derive(Debug, Clone, Copy, PartialEq, Eq, Structural)]
pub enum Button {
    Left,
    Right,
    Middle,
    Other(u8),
}

/// A mouse event.
#[derive(Debug, Clone, Copy, PartialEq, Eq, Structural)]
pub enum Event {
    /// A mouse button was pressed.
    ButtonPressed { button: Button, position: Point },
    /// A mouse button was released.
    ButtonReleased { button: Button, position: Point },
    /// The mouse cursor moved.
    CursorMoved { position: Point },
}

} // verus!
