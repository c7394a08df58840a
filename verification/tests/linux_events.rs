use location_watcher::event::{EventKind, LocationPubId, RawEvent, WatcherEvent};
use location_watcher::linux::LinuxEventHandler;

fn ev(kind: EventKind) -> WatcherEvent {
    WatcherEvent { location_pub_id: LocationPubId::new(7), kind }
}

#[test]
fn pure_rename_emits_one_rename_and_no_delete() {
    let mut h = LinuxEventHandler::new(LocationPubId::new(7), 1_000);
    let out = h.handle_event(&RawEvent::RenameFrom("/a".to_string()), 1_000);
    assert!(out.is_empty());
    let out = h.handle_event(
        &RawEvent::RenameBoth { from: "/a".to_string(), to: "/b".to_string() },
        1_050,
    );
    assert_eq!(
        out,
        vec![ev(EventKind::Rename { from: "/a".to_string(), to: "/b".to_string() })]
    );
    // a tick long after the window finds nothing to evict
    let out = h.tick(2_000);
    assert!(out.is_empty());
}

#[test]
fn dangling_rename_from_becomes_delete_after_window() {
    let mut h = LinuxEventHandler::new(LocationPubId::new(7), 1_000);
    let out = h.handle_event(&RawEvent::RenameFrom("/a".to_string()), 1_000);
    assert!(out.is_empty());
    let out = h.tick(1_150);
    assert_eq!(out, vec![ev(EventKind::Delete("/a".to_string()))]);
    // the record is gone: a later tick emits nothing more
    let out = h.tick(1_300);
    assert!(out.is_empty());
}

#[test]
fn create_suppresses_close_write() {
    let mut h = LinuxEventHandler::new(LocationPubId::new(7), 1_000);
    let out = h.handle_event(&RawEvent::CreatedFile("/f".to_string()), 1_000);
    assert_eq!(out, vec![ev(EventKind::Create("/f".to_string()))]);
    let out = h.handle_event(&RawEvent::CloseWrite("/f".to_string()), 1_050);
    assert!(out.is_empty());
}

#[test]
fn close_write_alone_is_an_update() {
    let mut h = LinuxEventHandler::new(LocationPubId::new(7), 1_000);
    let out = h.handle_event(&RawEvent::CloseWrite("/g".to_string()), 1_000);
    assert_eq!(out, vec![ev(EventKind::Update("/g".to_string()))]);
}

#[test]
fn close_write_after_suppression_window_is_an_update() {
    let mut h = LinuxEventHandler::new(LocationPubId::new(7), 1_000);
    h.handle_event(&RawEvent::CreatedFile("/f".to_string()), 1_000);
    // the tick prunes the suppression record once it is a window old
    let out = h.tick(1_200);
    assert!(out.is_empty());
    let out = h.handle_event(&RawEvent::CloseWrite("/f".to_string()), 1_210);
    assert_eq!(out, vec![ev(EventKind::Update("/f".to_string()))]);
}

#[test]
fn folder_create_needs_no_suppression() {
    let mut h = LinuxEventHandler::new(LocationPubId::new(7), 1_000);
    let out = h.handle_event(&RawEvent::CreatedFolder("/d".to_string()), 1_000);
    assert_eq!(out, vec![ev(EventKind::Create("/d".to_string()))]);
    // folders get no suppression record, so a close-write is an update
    let out = h.handle_event(&RawEvent::CloseWrite("/d".to_string()), 1_010);
    assert_eq!(out, vec![ev(EventKind::Update("/d".to_string()))]);
}

#[test]
fn remove_is_a_delete() {
    let mut h = LinuxEventHandler::new(LocationPubId::new(7), 1_000);
    let out = h.handle_event(&RawEvent::Removed("/x".to_string()), 1_000);
    assert_eq!(out, vec![ev(EventKind::Delete("/x".to_string()))]);
}

#[test]
fn unrecognized_signals_are_ignored() {
    let mut h = LinuxEventHandler::new(LocationPubId::new(7), 1_000);
    assert!(h.handle_event(&RawEvent::Other, 1_000).is_empty());
    // rename-any is a macOS signal; the Linux handler drops it
    let out = h.handle_event(
        &RawEvent::RenameAny { path: "/a".to_string(), present: true, identity: Some((1, 2)) },
        1_000,
    );
    assert!(out.is_empty());
}

#[test]
fn rename_from_after_rename_both_is_dropped() {
    let mut h = LinuxEventHandler::new(LocationPubId::new(7), 1_000);
    let out = h.handle_event(
        &RawEvent::RenameBoth { from: "/a".to_string(), to: "/b".to_string() },
        1_000,
    );
    assert_eq!(out.len(), 1);
    // the out-of-order rename-from for the same path is recognised as resolved
    let out = h.handle_event(&RawEvent::RenameFrom("/a".to_string()), 1_010);
    assert!(out.is_empty());
    // and it leaves no pending record behind: no delete after the window
    let out = h.tick(1_200);
    assert!(out.is_empty());
}

#[test]
fn tick_within_cadence_does_nothing() {
    let mut h = LinuxEventHandler::new(LocationPubId::new(7), 1_000);
    h.handle_event(&RawEvent::RenameFrom("/a".to_string()), 1_000);
    // only 50 ms since the handler started: the tick does not fire yet
    let out = h.tick(1_050);
    assert!(out.is_empty());
}

#[test]
fn eviction_reports_each_dangling_rename_once_in_order() {
    let mut h = LinuxEventHandler::new(LocationPubId::new(7), 1_000);
    h.handle_event(&RawEvent::RenameFrom("/a".to_string()), 1_000);
    h.handle_event(&RawEvent::RenameFrom("/b".to_string()), 1_010);
    h.handle_event(&RawEvent::RenameFrom("/c".to_string()), 1_090);
    let out = h.tick(1_150);
    // /a and /b have timed out; /c (60 ms old) stays pending
    assert_eq!(
        out,
        vec![
            ev(EventKind::Delete("/a".to_string())),
            ev(EventKind::Delete("/b".to_string())),
        ]
    );
    let out = h.tick(1_300);
    assert_eq!(out, vec![ev(EventKind::Delete("/c".to_string()))]);
}
