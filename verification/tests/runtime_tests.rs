use shellui::event::{Event, Status};
use shellui::geometry::{Length, Limits, Point, Size};
use shellui::hit::click_target;
use shellui::layout::{layout, FixedMeasurer};
use shellui::mouse::{self, Cursor, Interaction};
use shellui::runtime::{content_limits, content_offset, Cache, ContentPosition, ContentSizing,
    UserInterface};
use shellui::shell::Shell;
use shellui::tree::Tag;
use shellui::view;
use shellui::widget::{update_mapped, Button, Element, Text, VStack};
use shellui::window::RedrawRequest;

fn fixed(w: u32, h: u32) -> FixedMeasurer {
    FixedMeasurer { size: Size::new(w, h) }
}

fn sample_root() -> Element<u32> {
    // A button (36 x 24 with its default padding) above a text (20 x 8),
    // with the stack's default spacing of 8.
    Element::VStack(VStack::new(vec![
        Element::Button(Button::new("go".to_string()).on_press(7)),
        Element::Text(Text::new("hi".to_string())),
    ]))
}

fn press_at(x: i64, y: i64) -> (Event, Cursor) {
    let position = Point::new(x, y);
    (
        Event::Mouse(mouse::Event::ButtonPressed { button: mouse::Button::Left, position }),
        Cursor::new(position),
    )
}

#[test]
fn button_press_publishes_its_message() {
    let m = fixed(20, 8);
    let ui_bounds = Size::new(200, 200);
    let mut ui = UserInterface::build(sample_root(), ui_bounds, Cache::new(), &m);
    let (event, cursor) = press_at(5, 5);
    let mut messages: Vec<u32> = Vec::new();
    let redraw = ui.update(&[event], cursor, &m, &mut messages);
    assert_eq!(messages, vec![7]);
    // The press changed the interface, so the pass asks for the next frame.
    assert_eq!(redraw, RedrawRequest::NextFrame);
}

#[test]
fn press_outside_every_widget_publishes_nothing() {
    let m = fixed(20, 8);
    let mut ui = UserInterface::build(sample_root(), Size::new(200, 200), Cache::new(), &m);
    let (event, cursor) = press_at(150, 150);
    let mut messages: Vec<u32> = Vec::new();
    let redraw = ui.update(&[event], cursor, &m, &mut messages);
    assert!(messages.is_empty());
    // Nothing changed: no redraw is requested either.
    assert_eq!(redraw, RedrawRequest::Wait);
}

#[test]
fn events_process_in_order() {
    let m = fixed(20, 8);
    let mut ui = UserInterface::build(sample_root(), Size::new(200, 200), Cache::new(), &m);
    let (event, cursor) = press_at(5, 5);
    let mut messages: Vec<u32> = vec![99];
    ui.update(&[event, event, event], cursor, &m, &mut messages);
    assert_eq!(messages, vec![99, 7, 7, 7]);
}

#[test]
fn mouse_interaction_is_pointer_over_a_button() {
    let m = fixed(20, 8);
    let ui = UserInterface::build(sample_root(), Size::new(200, 200), Cache::new(), &m);
    assert_eq!(ui.mouse_interaction(Cursor::new(Point::new(5, 5))), Interaction::Pointer);
    // Over the text below the button: nothing captures a press there.
    assert_eq!(ui.mouse_interaction(Cursor::new(Point::new(5, 34))), Interaction::Idle);
    assert_eq!(ui.mouse_interaction(Cursor::new(Point::new(150, 150))), Interaction::Idle);
}

#[test]
fn the_cache_survives_a_frame_cycle() {
    let m = fixed(20, 8);
    let ui = UserInterface::build(sample_root(), Size::new(200, 200), Cache::new(), &m);
    let cache = ui.into_cache();
    assert_eq!(cache.state.tag, Tag(3));
    assert_eq!(cache.state.children.len(), 2);
    // Rebuilding against the same shape keeps the reconciled tree.
    let ui2 = UserInterface::build(sample_root(), Size::new(200, 200), cache, &m);
    let cache2 = ui2.into_cache();
    assert_eq!(cache2.state.children.len(), 2);
}

#[test]
fn draw_walks_the_widget_tree() {
    let m = fixed(20, 8);
    let ui = UserInterface::build(sample_root(), Size::new(200, 200), Cache::new(), &m);
    let commands = ui.draw();
    // The stack has no background: one glyph run per leaf.
    assert_eq!(commands.len(), 2);
}

#[test]
fn update_mapped_remaps_child_messages() {
    let m = fixed(20, 8);
    let child = Element::Button(Button::new("go".to_string()).on_press(3u32));
    let node = child.layout(Limits::loose(100, 100), &m);
    let (event, cursor) = press_at(2, 2);
    let mut shell: Shell<String> = Shell::new(Vec::new());
    let status = update_mapped(&child, &node, cursor, &event, &mut shell, |n: u32| {
        format!("n={}", n)
    });
    assert_eq!(status, Status::Captured);
    assert_eq!(shell.event_status(), Status::Captured);
    // The child's redraw request survives the merge into the parent shell.
    assert_eq!(shell.redraw_request(), RedrawRequest::NextFrame);
    assert_eq!(shell.into_messages(), vec!["n=3".to_string()]);
}

#[test]
fn click_target_finds_the_first_button_under_the_point() {
    let m = fixed(20, 8);
    let tree = view::ViewTree::VStack(view::VStack::new(vec![
        view::ViewTree::Text(view::Text::new("t".to_string())),
        view::ViewTree::Button(view::Button::new("b".to_string()).on_click(9)),
    ]).padding(5));
    let node = layout(&tree, Limits::loose(500, 500), &m);
    // The button is the second child: at (5, 5 + 8) with size 36 x 24.
    assert_eq!(click_target(&tree, &node, 10, 20), Some(9));
    assert_eq!(click_target(&tree, &node, 10, 6), None);
    assert_eq!(click_target(&tree, &node, 400, 400), None);
}

#[test]
fn click_on_a_button_without_a_handler_reports_nothing() {
    let m = fixed(20, 8);
    let tree = view::ViewTree::Button(view::Button::new("b".to_string()));
    let node = layout(&tree, Limits::loose(500, 500), &m);
    assert_eq!(click_target(&tree, &node, 1, 1), None);
}

#[test]
fn widget_layout_matches_the_view_algorithm() {
    let m = fixed(20, 8);
    // A button widget is its label plus twice its default padding of 8.
    let b: Element<u32> = Element::Button(Button::new("go".to_string()));
    let node = b.layout(Limits::loose(500, 500), &m);
    assert_eq!((node.bounds.width, node.bounds.height), (36, 24));
    // The widget stack uses a default spacing of 8.
    let s = sample_root();
    let node = s.layout(Limits::loose(500, 500), &m);
    assert_eq!((node.bounds.width, node.bounds.height), (36, 40));
    assert_eq!(node.children[1].bounds.y, 32);
}

#[test]
fn widget_size_hints_shrink_except_fixed_text_height() {
    let t: Element<u32> = Element::Text(Text::new("x".to_string()).size(16));
    assert_eq!(t.size(), (Length::Shrink, Length::Fixed(20)));
    assert_eq!(t.size_hint(), (Length::Shrink, Length::Fixed(20)));
    let b: Element<u32> = Element::Button(Button::new("x".to_string()));
    assert_eq!(b.size(), (Length::Shrink, Length::Shrink));
}

#[test]
fn content_limits_follow_the_sizing_mode() {
    let auto = content_limits(ContentSizing::Auto, 800, 600);
    assert_eq!(auto, Limits::loose(800, 600));
    let fill = content_limits(ContentSizing::FillWindow, 800, 600);
    assert_eq!(fill, Limits { min_width: 800, min_height: 600, max_width: 800, max_height: 600 });
    let fixed_mode = content_limits(ContentSizing::Fixed(100, 50), 800, 600);
    assert_eq!(
        fixed_mode,
        Limits { min_width: 100, min_height: 50, max_width: 100, max_height: 50 },
    );
    let min = content_limits(ContentSizing::Minimum(100, 50), 800, 600);
    assert_eq!(min, Limits { min_width: 100, min_height: 50, max_width: 800, max_height: 600 });
}

#[test]
fn content_offset_positions_the_content() {
    assert_eq!(content_offset(ContentPosition::Leading, 100, 50, 800, 600), (0, 0));
    assert_eq!(content_offset(ContentPosition::Center, 100, 50, 800, 600), (350, 275));
    assert_eq!(content_offset(ContentPosition::Trailing, 100, 50, 800, 600), (700, 550));
    assert_eq!(content_offset(ContentPosition::TopCenter, 100, 50, 800, 600), (350, 0));
    assert_eq!(content_offset(ContentPosition::BottomCenter, 100, 50, 800, 600), (350, 550));
    // Content larger than the window pins to the leading edge.
    assert_eq!(content_offset(ContentPosition::Center, 900, 700, 800, 600), (0, 0));
}
