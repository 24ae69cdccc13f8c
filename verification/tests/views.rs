use event_center::generic_event::{EventArgs, GenericEvent, InputEvent, KeyboardEvent};
use event_center::generic_event::{RELEASE_KIND, RESIZE_KIND};
use event_center::release::ReleaseEvent;
use event_center::resize::ResizeEvent;

#[test]
fn release_round_trip_on_input_event() {
    // Construct a release-view event from a button value: release-view
    // extraction returns it, resize-view extraction returns None.
    let e: InputEvent = ReleaseEvent::from_button(7).unwrap();
    assert_eq!(e.release_args(), Some(7));
    assert_eq!(e.resize_args(), None);
}

#[test]
fn resize_round_trip_on_input_event() {
    let e: InputEvent = ResizeEvent::from_width_height(800, 600).unwrap();
    assert_eq!(e.resize_args(), Some([800, 600]));
    assert_eq!(e.release_args(), None);
}

#[test]
fn release_closure_sees_the_button() {
    let e: InputEvent = ReleaseEvent::from_button(41).unwrap();
    assert_eq!(e.release(|b| b + 1), Some(42));
    assert_eq!(e.resize(|w, h| w as u64 + h as u64), None);
}

#[test]
fn resize_closure_sees_width_and_height() {
    let e: InputEvent = ResizeEvent::from_width_height(3, 4).unwrap();
    assert_eq!(e.resize(|w, h| w * h), Some(12));
    assert_eq!(e.release(|b| b), None);
}

#[test]
fn unsupported_view_constructs_none() {
    // A keyboard-only representation asked for a resize view answers
    // None, never a fault.
    let none: Option<KeyboardEvent> = ResizeEvent::from_width_height(800, 600);
    assert!(none.is_none());
    let e: KeyboardEvent = ReleaseEvent::from_button(3).unwrap();
    assert_eq!(e.release_args(), Some(3));
    assert_eq!(e.resize_args(), None);
}

#[test]
fn kind_tags_are_distinct() {
    assert_ne!(RELEASE_KIND, RESIZE_KIND);
}

#[test]
fn generic_entry_points_match_tags_exactly() {
    let e = InputEvent::from_event(RELEASE_KIND, EventArgs::Button(9)).unwrap();
    match e.with_event(RELEASE_KIND) {
        Some(EventArgs::Button(b)) => assert_eq!(b, 9),
        _ => panic!("expected the button payload back"),
    }
    assert!(e.with_event(RESIZE_KIND).is_none());
}
