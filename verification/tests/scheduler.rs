use event_center::counter::{BumpCommand, TickObserver};
use event_center::event_center::EventCenter;
use event_center::generic_event::InputEvent;

fn center() -> EventCenter<TickObserver, BumpCommand> {
    EventCenter::new()
}

#[test]
fn new_center_is_empty() {
    let c = center();
    assert!(!c.has_observer(0));
}

#[test]
fn ids_start_at_zero_and_increase() {
    let mut c = center();
    let i0 = c.add_observer_call(TickObserver::new(3), BumpCommand {});
    let i1 = c.add_observer_call_once(TickObserver::new(1), BumpCommand {});
    assert_eq!(i0, 0);
    assert_eq!(i1, 1);
    assert!(c.has_observer(i0));
    assert!(c.has_observer(i1));
}

#[test]
fn removed_ids_are_never_reused() {
    // Register O1 then O2, remove O1, register O3: O3 gets the id that
    // would have been allocated after O2.
    let mut c = center();
    let i1 = c.add_observer_call(TickObserver::new(3), BumpCommand {});
    let i2 = c.add_observer_call(TickObserver::new(3), BumpCommand {});
    c.remove_observer(i1);
    let i3 = c.add_observer_call(TickObserver::new(3), BumpCommand {});
    assert_eq!(i1, 0);
    assert_eq!(i2, 1);
    assert_eq!(i3, 2);
    assert!(!c.has_observer(i1));
    assert!(c.has_observer(i2));
    assert!(c.has_observer(i3));
}

#[test]
fn remove_of_unknown_id_is_a_no_op() {
    let mut c = center();
    c.remove_observer(99);
    let i0 = c.add_observer_call(TickObserver::new(3), BumpCommand {});
    assert_eq!(i0, 0);
    c.remove_observer(99);
    assert!(c.has_observer(i0));
    let i1 = c.add_observer_call(TickObserver::new(3), BumpCommand {});
    assert_eq!(i1, 1);
}

#[test]
fn persistent_counter_fires_every_third_tick() {
    // The observer triggers when its counter reaches 3; `after_trigger`
    // clears the counter, so the command fires on ticks 3 and 6 only.
    let mut c = center();
    let mut app: u64 = 0;
    c.add_observer_call(TickObserver::new(3), BumpCommand {});
    let mut hits = Vec::new();
    for _ in 0..6 {
        c.update(&mut app, 1);
        hits.push(app);
    }
    assert_eq!(hits, vec![0, 0, 1, 1, 1, 2]);
}

#[test]
fn one_shot_fires_once_and_is_removed() {
    // The observer is ready on the very next tick: the command runs
    // exactly once, and the registration is gone afterwards.
    let mut c = center();
    let mut app: u64 = 0;
    let id = c.add_observer_call_once(TickObserver::new(1), BumpCommand {});
    c.update(&mut app, 1);
    assert_eq!(app, 1);
    assert!(!c.has_observer(id));
    c.update(&mut app, 1);
    assert_eq!(app, 1);
    // idempotent cleanup afterwards
    c.remove_observer(id);
    assert!(!c.has_observer(id));
}

#[test]
fn one_shot_waits_until_ready() {
    let mut c = center();
    let mut app: u64 = 0;
    let id = c.add_observer_call_once(TickObserver::new(2), BumpCommand {});
    c.update(&mut app, 1);
    assert_eq!(app, 0);
    assert!(c.has_observer(id));
    c.update(&mut app, 1);
    assert_eq!(app, 1);
    assert!(!c.has_observer(id));
}

#[test]
fn persistent_survives_while_one_shot_is_removed() {
    let mut c = center();
    let mut app: u64 = 0;
    let ip = c.add_observer_call(TickObserver::new(1), BumpCommand {});
    let io = c.add_observer_call_once(TickObserver::new(1), BumpCommand {});
    c.update(&mut app, 1);
    assert_eq!(app, 2);
    assert!(c.has_observer(ip));
    assert!(!c.has_observer(io));
    c.update(&mut app, 1);
    assert_eq!(app, 3);
}

#[test]
fn receive_event_reaches_every_observer_once() {
    // Both observers count delivered events; with threshold 2, two
    // deliveries make both ready, so a zero-delta tick fires both
    // commands exactly once.
    let mut c = center();
    let mut app: u64 = 0;
    c.add_observer_call(TickObserver::new(2), BumpCommand {});
    c.add_observer_call(TickObserver::new(2), BumpCommand {});
    c.receive_event(&InputEvent::Release(5));
    c.update(&mut app, 0);
    assert_eq!(app, 0);
    c.receive_event(&InputEvent::Resize(800, 600));
    c.update(&mut app, 0);
    assert_eq!(app, 2);
}

#[test]
fn empty_center_ticks_and_broadcasts_quietly() {
    let mut c = center();
    let mut app: u64 = 7;
    c.update(&mut app, 5);
    c.receive_event(&InputEvent::Release(1));
    assert_eq!(app, 7);
    assert!(!c.has_observer(0));
}

#[test]
fn zero_threshold_fires_every_tick() {
    let mut c = center();
    let mut app: u64 = 0;
    c.add_observer_call(TickObserver::new(0), BumpCommand {});
    c.update(&mut app, 0);
    c.update(&mut app, 0);
    assert_eq!(app, 2);
}
