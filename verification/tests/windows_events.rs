use location_watcher::event::{EventKind, LocationPubId, RawEvent, WatcherEvent};
use location_watcher::windows::WindowsEventHandler;

fn ev(kind: EventKind) -> WatcherEvent {
    WatcherEvent { location_pub_id: LocationPubId::new(3), kind }
}

#[test]
fn rename_pair_is_paired() {
    let mut h = WindowsEventHandler::new(LocationPubId::new(3), 1_000);
    let out = h.handle_event(&RawEvent::RenameFrom("/a".to_string()), 1_000);
    assert!(out.is_empty());
    let out = h.handle_event(&RawEvent::RenameTo("/b".to_string()), 1_001);
    assert_eq!(
        out,
        vec![ev(EventKind::Rename { from: "/a".to_string(), to: "/b".to_string() })]
    );
    assert!(h.tick(1_200).is_empty());
}

#[test]
fn lone_rename_to_is_an_arrival() {
    let mut h = WindowsEventHandler::new(LocationPubId::new(3), 1_000);
    let out = h.handle_event(&RawEvent::RenameTo("/b".to_string()), 1_000);
    assert_eq!(out, vec![ev(EventKind::Create("/b".to_string()))]);
}

#[test]
fn dangling_rename_from_becomes_delete() {
    let mut h = WindowsEventHandler::new(LocationPubId::new(3), 1_000);
    let out = h.handle_event(&RawEvent::RenameFrom("/a".to_string()), 1_000);
    assert!(out.is_empty());
    let out = h.tick(1_150);
    assert_eq!(out, vec![ev(EventKind::Delete("/a".to_string()))]);
}

#[test]
fn generic_kinds_pass_through() {
    let mut h = WindowsEventHandler::new(LocationPubId::new(3), 1_000);
    let out = h.handle_event(&RawEvent::Created("/f".to_string()), 1_000);
    assert_eq!(out, vec![ev(EventKind::Create("/f".to_string()))]);
    let out = h.handle_event(&RawEvent::Modified("/f".to_string()), 1_010);
    assert_eq!(out, vec![ev(EventKind::Update("/f".to_string()))]);
    let out = h.handle_event(&RawEvent::Removed("/f".to_string()), 1_020);
    assert_eq!(out, vec![ev(EventKind::Delete("/f".to_string()))]);
    assert!(h.handle_event(&RawEvent::Other, 1_030).is_empty());
    // the close-after-write split does not exist on Windows
    assert!(h.handle_event(&RawEvent::CloseWrite("/f".to_string()), 1_040).is_empty());
}

#[test]
fn rename_to_pairs_with_most_recent_from() {
    let mut h = WindowsEventHandler::new(LocationPubId::new(3), 1_000);
    h.handle_event(&RawEvent::RenameFrom("/a".to_string()), 1_000);
    h.handle_event(&RawEvent::RenameFrom("/b".to_string()), 1_001);
    let out = h.handle_event(&RawEvent::RenameTo("/c".to_string()), 1_002);
    assert_eq!(
        out,
        vec![ev(EventKind::Rename { from: "/b".to_string(), to: "/c".to_string() })]
    );
    // the older rename-from is still pending and times out
    let out = h.tick(1_200);
    assert_eq!(out, vec![ev(EventKind::Delete("/a".to_string()))]);
}
