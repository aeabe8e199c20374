use shellui::event::Status;
use shellui::shell::Shell;
use shellui::window::RedrawRequest;

#[test]
fn new_shell_is_quiet() {
    let s: Shell<u32> = Shell::new(Vec::new());
    assert!(s.is_empty());
    assert_eq!(s.event_status(), Status::Ignored);
    assert!(!s.is_event_captured());
    assert_eq!(s.redraw_request(), RedrawRequest::Wait);
    assert!(!s.is_layout_invalid());
}

#[test]
fn publish_keeps_insertion_order() {
    let mut s: Shell<u32> = Shell::new(vec![1]);
    s.publish(2);
    s.publish(3);
    assert!(!s.is_empty());
    assert_eq!(s.into_messages(), vec![1, 2, 3]);
}

#[test]
fn capture_is_monotonic() {
    let mut s: Shell<u32> = Shell::new(Vec::new());
    s.capture_event();
    assert!(s.is_event_captured());
    assert_eq!(s.event_status(), Status::Captured);
}

#[test]
fn revalidate_clears_and_reports_the_flag() {
    let mut s: Shell<u32> = Shell::new(Vec::new());
    assert!(!s.revalidate_layout());
    s.invalidate_layout();
    assert!(s.is_layout_invalid());
    assert!(s.revalidate_layout());
    assert!(!s.is_layout_invalid());
}

#[test]
fn merge_carries_capture_and_maps_messages() {
    // A child that captured, wants the next frame, and published one message.
    let mut parent: Shell<String> = Shell::new(Vec::new());
    let mut child: Shell<u32> = Shell::new(Vec::new());
    child.publish(7);
    child.capture_event();
    child.request_redraw();
    parent.merge(child, |n: u32| format!("got {}", n));
    assert_eq!(parent.event_status(), Status::Captured);
    // The child's request is never downgraded: the merged shell asks for the
    // next frame even though the parent was still waiting.
    assert_eq!(parent.redraw_request(), RedrawRequest::NextFrame);
    assert!(!parent.is_layout_invalid());
    assert_eq!(parent.into_messages(), vec!["got 7".to_string()]);
}

#[test]
fn merge_keeps_next_frame_when_both_want_it() {
    let mut parent: Shell<u32> = Shell::new(Vec::new());
    parent.request_redraw();
    let mut child: Shell<u32> = Shell::new(Vec::new());
    child.request_redraw();
    parent.merge(child, |n: u32| n);
    assert_eq!(parent.redraw_request(), RedrawRequest::NextFrame);
}

#[test]
fn merge_preserves_message_order_and_invalidation() {
    let mut parent: Shell<u32> = Shell::new(vec![1]);
    let mut child: Shell<u32> = Shell::new(Vec::new());
    child.publish(10);
    child.publish(20);
    child.invalidate_layout();
    parent.merge(child, |n: u32| n + 1);
    assert!(parent.is_layout_invalid());
    assert_eq!(parent.event_status(), Status::Ignored);
    assert_eq!(parent.into_messages(), vec![1, 11, 21]);
}

#[test]
fn status_merge_prefers_captured() {
    assert_eq!(Status::Ignored.merge(Status::Ignored), Status::Ignored);
    assert_eq!(Status::Ignored.merge(Status::Captured), Status::Captured);
    assert_eq!(Status::Captured.merge(Status::Ignored), Status::Captured);
    assert_eq!(Status::Captured.merge(Status::Captured), Status::Captured);
}

#[test]
fn redraw_min_takes_the_sooner_request() {
    assert_eq!(RedrawRequest::Wait.min(RedrawRequest::Wait), RedrawRequest::Wait);
    assert_eq!(RedrawRequest::Wait.min(RedrawRequest::NextFrame), RedrawRequest::NextFrame);
    assert_eq!(RedrawRequest::NextFrame.min(RedrawRequest::Wait), RedrawRequest::NextFrame);
    assert_eq!(
        RedrawRequest::NextFrame.min(RedrawRequest::NextFrame),
        RedrawRequest::NextFrame,
    );
}
