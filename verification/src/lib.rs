//! A small declarative UI toolkit core: box-constraint layout for stacks,
//! a persistent widget-state tree with tag-gated reconciliation, and the
//! per-event shell that aggregates messages, capture, and redraw requests.
//!
//! Geometry is measured in whole logical pixels. Arithmetic on dimensions
//! saturates at `u32::MAX` and clamps into the given limits, so layout is a
//! total function of its inputs.

pub mod background;
pub mod event;
pub mod geometry;
pub mod hit;
pub mod layout;
pub mod mouse;
pub mod render;
pub mod runtime;
pub mod shell;
pub mod tree;
pub mod widget;
pub mod view;
pub mod window;

pub use background::{Background, Color};
pub use event::{Event, Status};
pub use geometry::{Length, Limits, Point, Rectangle, Size, Vector};
pub use hit::click_target;
pub use layout::{layout, Node, PlaceholderMeasurer, TextMeasurer};
pub use mouse::{Cursor, Interaction};
pub use render::{display_list, DrawCommand};
pub use runtime::{Cache, ContentPosition, ContentSizing, UserInterface};
pub use shell::Shell;
pub use tree::{State, Tag, Tree};
pub use view::{Alignment, Justify, ViewTree};
pub use widget::Element;
pub use window::RedrawRequest;
