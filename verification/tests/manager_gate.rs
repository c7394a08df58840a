use location_watcher::event::{EventKind, LocationPubId, WatcherEvent};
use location_watcher::manager::{
    restart_after_loop_exit, LocationManager, ReachabilityOutcome,
};

fn delete_event(id: LocationPubId, path: &str) -> WatcherEvent {
    WatcherEvent { location_pub_id: id, kind: EventKind::Delete(path.to_string()) }
}

#[test]
fn offline_location_events_are_never_forwarded() {
    let mut m = LocationManager::new();
    let id = LocationPubId::new(42);
    m.attach_location(id, "/mnt/data".to_string());
    // the location was never marked online: ten raw deletions, none forwarded
    let mut forwarded = 0;
    for i in 0..10 {
        let ev = delete_event(id, &format!("/mnt/data/file-{}", i));
        if m.gate_event(&ev) {
            forwarded += 1;
        }
    }
    assert_eq!(forwarded, 0);
}

#[test]
fn online_location_events_are_forwarded() {
    let mut m = LocationManager::new();
    let id = LocationPubId::new(42);
    m.attach_location(id, "/mnt/data".to_string());
    m.add_online(id);
    assert!(m.gate_event(&delete_event(id, "/mnt/data/file")));
    // going offline stops forwarding again
    m.remove_online(id);
    assert!(!m.gate_event(&delete_event(id, "/mnt/data/file")));
}

#[test]
fn ignored_paths_suppress_their_events() {
    let mut m = LocationManager::new();
    let id = LocationPubId::new(1);
    m.add_online(id);
    m.set_ignore(id, "/mnt/data/tmp".to_string(), true);
    assert!(m.is_ignored(id, &"/mnt/data/tmp".to_string()));
    assert!(!m.gate_event(&delete_event(id, "/mnt/data/tmp")));
    // a rename is rejected only when every path it mentions is suppressed
    let rename = WatcherEvent {
        location_pub_id: id,
        kind: EventKind::Rename {
            from: "/mnt/data/tmp".to_string(),
            to: "/mnt/data/kept".to_string(),
        },
    };
    assert!(m.gate_event(&rename));
    m.set_ignore(id, "/mnt/data/tmp".to_string(), false);
    assert!(!m.is_ignored(id, &"/mnt/data/tmp".to_string()));
    assert!(m.gate_event(&delete_event(id, "/mnt/data/tmp")));
}

#[test]
fn reachability_outcomes_drive_the_online_set() {
    let mut m = LocationManager::new();
    let id = LocationPubId::new(5);
    assert!(m.apply_reachability(id, ReachabilityOutcome::Found));
    assert!(m.is_online(id));
    assert!(!m.apply_reachability(id, ReachabilityOutcome::NotFound));
    assert!(!m.is_online(id));
    m.add_online(id);
    // any other I/O error is treated conservatively as offline
    assert!(!m.apply_reachability(id, ReachabilityOutcome::IoError));
    assert!(!m.is_online(id));
}

#[test]
fn attach_detach_lifecycle() {
    let mut m = LocationManager::new();
    let id = LocationPubId::new(8);
    assert!(m.location_root(id).is_none());
    m.attach_location(id, "/somewhere".to_string());
    assert_eq!(m.location_root(id).unwrap(), "/somewhere");
    m.attach_location(id, "/elsewhere".to_string());
    assert_eq!(m.location_root(id).unwrap(), "/elsewhere");
    m.add_online(id);
    m.set_ignore(id, "/elsewhere/x".to_string(), true);
    m.detach_location(id);
    assert!(m.location_root(id).is_none());
    assert!(!m.is_online(id));
    assert!(!m.is_ignored(id, &"/elsewhere/x".to_string()));
}

#[test]
fn supervisor_restarts_unless_cancelled() {
    assert!(restart_after_loop_exit(false));
    assert!(!restart_after_loop_exit(true));
}
