use wayland_proxy::buffer_flow::BufferFlowTracker;
use wayland_proxy::grab_state::{GrabTracker, BUTTON_STATE_PRESSED};
use wayland_proxy::pending_frames::PendingFrameTracker;

#[test]
fn attach_then_commit_marks_the_buffer_in_flight() {
    let mut t = BufferFlowTracker::new();
    t.on_attach(6, 58);
    t.on_commit(6);
    assert_eq!(t.drain_in_flight(), vec![58]);
}

#[test]
fn attach_without_commit_is_not_in_flight() {
    let mut t = BufferFlowTracker::new();
    t.on_attach(6, 58);
    assert!(t.drain_in_flight().is_empty());
}

#[test]
fn release_clears_in_flight_state() {
    let mut t = BufferFlowTracker::new();
    t.on_attach(6, 58);
    t.on_commit(6);
    t.on_release(58);
    assert!(t.drain_in_flight().is_empty());
}

#[test]
fn null_attach_never_becomes_in_flight() {
    let mut t = BufferFlowTracker::new();
    t.on_attach(6, 0);
    t.on_commit(6);
    assert!(t.drain_in_flight().is_empty());
}

#[test]
fn commit_without_a_new_attach_reapplies_the_previous_buffer() {
    // Wayland's own double-buffered state model: a commit with no
    // intervening attach reuses whatever was last attached -- e.g. a
    // client re-committing the same surface for a damage-only update.
    let mut t = BufferFlowTracker::new();
    t.on_attach(6, 58);
    t.on_commit(6);
    t.on_release(58); // freed once...
    t.on_commit(6); // ...but re-committed without a new attach
    assert_eq!(t.drain_in_flight(), vec![58], "should still reapply buffer 58, not forget it");
}

#[test]
fn buffer_flow_drain_clears_state_so_it_isnt_reported_again() {
    let mut t = BufferFlowTracker::new();
    t.on_attach(6, 58);
    t.on_commit(6);
    assert_eq!(t.drain_in_flight(), vec![58]);
    assert!(t.drain_in_flight().is_empty(), "a second drain should be empty");
}

#[test]
fn tracks_multiple_surfaces_independently() {
    let mut t = BufferFlowTracker::new();
    t.on_attach(6, 58);
    t.on_commit(6);
    t.on_attach(7, 99);
    t.on_commit(7);
    let mut in_flight = t.drain_in_flight();
    in_flight.sort();
    assert_eq!(in_flight, vec![58, 99]);
}

#[test]
fn frame_request_is_tracked_until_done_arrives() {
    let mut t = PendingFrameTracker::new();
    t.on_frame_requested(60);
    assert_eq!(t.drain_awaiting_done(), vec![60]);
}

#[test]
fn done_received_clears_the_pending_entry() {
    let mut t = PendingFrameTracker::new();
    t.on_frame_requested(60);
    t.on_done_received(60);
    assert!(t.drain_awaiting_done().is_empty());
}

#[test]
fn pending_frames_drain_clears_state_so_it_isnt_reported_again() {
    let mut t = PendingFrameTracker::new();
    t.on_frame_requested(60);
    assert_eq!(t.drain_awaiting_done(), vec![60]);
    assert!(t.drain_awaiting_done().is_empty(), "a second drain should be empty");
}

#[test]
fn tracks_multiple_outstanding_callbacks_independently() {
    let mut t = PendingFrameTracker::new();
    t.on_frame_requested(60);
    t.on_frame_requested(61);
    t.on_done_received(60);
    assert_eq!(t.drain_awaiting_done(), vec![61]);
}

#[test]
fn sync_request_is_tracked_the_same_way_as_a_frame_request() {
    let mut t = PendingFrameTracker::new();
    t.on_sync_requested(62);
    assert_eq!(t.drain_awaiting_done(), vec![62]);
}

#[test]
fn frame_and_sync_callbacks_are_tracked_independently_of_each_other() {
    let mut t = PendingFrameTracker::new();
    t.on_frame_requested(60);
    t.on_sync_requested(62);
    t.on_done_received(62);
    assert_eq!(t.drain_awaiting_done(), vec![60]);
}

#[test]
fn tracks_pointer_enter_and_leave() {
    let mut t = GrabTracker::new();
    t.on_pointer_enter(10, 6);
    let grabs = t.active_pointer_grabs();
    assert_eq!(grabs, vec![(10, Some(6), &[][..])]);

    t.on_pointer_leave(10);
    assert_eq!(t.active_pointer_grabs().len(), 0);
}

#[test]
fn tracks_pressed_buttons_independent_of_focus() {
    let mut t = GrabTracker::new();
    t.on_pointer_enter(10, 6);
    t.on_pointer_button(10, 272, BUTTON_STATE_PRESSED);
    t.on_pointer_leave(10); // focus cleared, but button still held
    let grabs = t.active_pointer_grabs();
    assert_eq!(grabs, vec![(10, None, &[272][..])]);

    t.on_pointer_button(10, 272, 0); // released
    assert_eq!(t.active_pointer_grabs().len(), 0);
}

#[test]
fn tracks_multiple_pressed_buttons() {
    let mut t = GrabTracker::new();
    t.on_pointer_button(10, 272, BUTTON_STATE_PRESSED);
    t.on_pointer_button(10, 273, BUTTON_STATE_PRESSED);
    let grabs = t.active_pointer_grabs();
    assert_eq!(grabs.len(), 1);
    assert_eq!(grabs[0].2.len(), 2);
}

#[test]
fn tracks_keyboard_enter_and_leave() {
    let mut t = GrabTracker::new();
    t.on_keyboard_enter(11, 6);
    assert_eq!(t.active_keyboard_grabs(), vec![(11, 6)]);
    t.on_keyboard_leave(11);
    assert_eq!(t.active_keyboard_grabs().len(), 0);
}

#[test]
fn clear_resets_everything() {
    let mut t = GrabTracker::new();
    t.on_pointer_enter(10, 6);
    t.on_keyboard_enter(11, 6);
    t.clear();
    assert_eq!(t.active_pointer_grabs().len(), 0);
    assert_eq!(t.active_keyboard_grabs().len(), 0);
}

#[test]
fn no_grabs_by_default() {
    let t = GrabTracker::new();
    assert_eq!(t.active_pointer_grabs().len(), 0);
    assert_eq!(t.active_keyboard_grabs().len(), 0);
}
