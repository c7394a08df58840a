use location_watcher::event::{EventKind, LocationPubId, RawEvent, WatcherEvent};
use location_watcher::macos::MacOsEventHandler;

fn ev(kind: EventKind) -> WatcherEvent {
    WatcherEvent { location_pub_id: LocationPubId::new(9), kind }
}

fn rename_any(path: &str, present: bool, identity: Option<(u64, u64)>) -> RawEvent {
    RawEvent::RenameAny { path: path.to_string(), present, identity }
}

#[test]
fn old_then_new_resolves_to_one_rename() {
    let mut h = MacOsEventHandler::new(LocationPubId::new(9), 1_000);
    let out = h.handle_event(&rename_any("/old", false, Some((5, 7))), 1_000);
    assert!(out.is_empty());
    let out = h.handle_event(&rename_any("/new", true, Some((5, 7))), 1_040);
    assert_eq!(
        out,
        vec![ev(EventKind::Rename { from: "/old".to_string(), to: "/new".to_string() })]
    );
    // resolved: nothing left to evict
    let out = h.tick(2_000);
    assert!(out.is_empty());
}

#[test]
fn new_then_old_resolves_to_one_rename() {
    let mut h = MacOsEventHandler::new(LocationPubId::new(9), 1_000);
    let out = h.handle_event(&rename_any("/new", true, Some((5, 7))), 1_000);
    assert!(out.is_empty());
    let out = h.handle_event(&rename_any("/old", false, Some((5, 7))), 1_040);
    assert_eq!(
        out,
        vec![ev(EventKind::Rename { from: "/old".to_string(), to: "/new".to_string() })]
    );
}

#[test]
fn lone_old_side_becomes_delete_after_window() {
    let mut h = MacOsEventHandler::new(LocationPubId::new(9), 1_000);
    let out = h.handle_event(&rename_any("/gone", false, Some((5, 7))), 1_000);
    assert!(out.is_empty());
    let out = h.tick(1_150);
    assert_eq!(out, vec![ev(EventKind::Delete("/gone".to_string()))]);
    assert!(h.tick(1_300).is_empty());
}

#[test]
fn lone_new_side_becomes_create_after_window() {
    let mut h = MacOsEventHandler::new(LocationPubId::new(9), 1_000);
    let out = h.handle_event(&rename_any("/arrived", true, Some((5, 7))), 1_000);
    assert!(out.is_empty());
    let out = h.tick(1_150);
    assert_eq!(out, vec![ev(EventKind::Create("/arrived".to_string()))]);
}

#[test]
fn stale_old_and_new_sides_are_reported_together() {
    let mut h = MacOsEventHandler::new(LocationPubId::new(9), 1_000);
    h.handle_event(&rename_any("/gone", false, Some((1, 1))), 1_000);
    h.handle_event(&rename_any("/arrived", true, Some((2, 2))), 1_010);
    let out = h.tick(1_200);
    assert_eq!(
        out,
        vec![
            ev(EventKind::Delete("/gone".to_string())),
            ev(EventKind::Create("/arrived".to_string())),
        ]
    );
}

#[test]
fn unknown_identity_is_resolved_immediately() {
    let mut h = MacOsEventHandler::new(LocationPubId::new(9), 1_000);
    let out = h.handle_event(&rename_any("/somewhere", true, None), 1_000);
    assert_eq!(out, vec![ev(EventKind::Create("/somewhere".to_string()))]);
    let out = h.handle_event(&rename_any("/elsewhere", false, None), 1_010);
    assert_eq!(out, vec![ev(EventKind::Delete("/elsewhere".to_string()))]);
}

#[test]
fn create_suppresses_content_change() {
    let mut h = MacOsEventHandler::new(LocationPubId::new(9), 1_000);
    let out = h.handle_event(&RawEvent::CreatedFile("/f".to_string()), 1_000);
    assert_eq!(out, vec![ev(EventKind::Create("/f".to_string()))]);
    let out = h.handle_event(&RawEvent::Modified("/f".to_string()), 1_020);
    assert!(out.is_empty());
    // an unrelated path's content change is an update
    let out = h.handle_event(&RawEvent::Modified("/g".to_string()), 1_030);
    assert_eq!(out, vec![ev(EventKind::Update("/g".to_string()))]);
}

#[test]
fn remove_and_folder_create_pass_through() {
    let mut h = MacOsEventHandler::new(LocationPubId::new(9), 1_000);
    let out = h.handle_event(&RawEvent::CreatedFolder("/d".to_string()), 1_000);
    assert_eq!(out, vec![ev(EventKind::Create("/d".to_string()))]);
    let out = h.handle_event(&RawEvent::Removed("/x".to_string()), 1_010);
    assert_eq!(out, vec![ev(EventKind::Delete("/x".to_string()))]);
}
