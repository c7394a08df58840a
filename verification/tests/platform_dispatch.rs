use location_watcher::event::{EventKind, LocationPubId, RawEvent, WatcherEvent};
use location_watcher::handler::PlatformEventHandler;

fn ev(kind: EventKind) -> WatcherEvent {
    WatcherEvent { location_pub_id: LocationPubId::new(1), kind }
}

#[test]
fn dispatch_reaches_each_variant() {
    let mut linux = PlatformEventHandler::new_linux(LocationPubId::new(1), 1_000);
    let out = linux.handle_event(&RawEvent::CreatedFile("/f".to_string()), 1_000);
    assert_eq!(out, vec![ev(EventKind::Create("/f".to_string()))]);

    let mut mac = PlatformEventHandler::new_macos(LocationPubId::new(1), 1_000);
    let out = mac.handle_event(
        &RawEvent::RenameAny { path: "/f".to_string(), present: true, identity: None },
        1_000,
    );
    assert_eq!(out, vec![ev(EventKind::Create("/f".to_string()))]);

    let mut win = PlatformEventHandler::new_windows(LocationPubId::new(1), 1_000);
    let out = win.handle_event(&RawEvent::Created("/f".to_string()), 1_000);
    assert_eq!(out, vec![ev(EventKind::Create("/f".to_string()))]);
}

#[test]
fn dispatch_ticks_the_active_variant() {
    let mut linux = PlatformEventHandler::new_linux(LocationPubId::new(1), 1_000);
    assert!(linux.handle_event(&RawEvent::RenameFrom("/a".to_string()), 1_000).is_empty());
    let out = linux.tick(1_150);
    assert_eq!(out, vec![ev(EventKind::Delete("/a".to_string()))]);
}
