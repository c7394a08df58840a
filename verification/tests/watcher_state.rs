use location_watcher::event::LocationPubId;
use location_watcher::watcher::LocationWatcher;
use notify::Watcher as _;

fn new_watcher(path: &str) -> LocationWatcher {
    let native = notify::RecommendedWatcher::new(|_res| {}, notify::Config::default()).unwrap();
    LocationWatcher::new(LocationPubId::new(11), path.to_string(), native)
}

#[test]
fn watch_is_idempotent() {
    let mut w = new_watcher("/tmp");
    assert!(!w.is_watching());
    w.watch();
    assert!(w.is_watching());
    // the second call leaves the one active native watch as it is
    w.watch();
    assert!(w.is_watching());
    w.unwatch();
    assert!(!w.is_watching());
}

#[test]
fn unwatch_without_watch_is_a_no_op() {
    let mut w = new_watcher("/tmp");
    assert!(!w.is_watching());
    w.unwatch();
    assert!(!w.is_watching());
}

#[test]
fn failed_watch_leaves_not_watching() {
    let mut w = new_watcher("/surely/not/a/real/path");
    w.watch();
    assert!(!w.is_watching());
}

#[test]
fn update_location_reconciles_state() {
    let mut w = new_watcher("/tmp");
    assert_eq!(w.location_path(), "/tmp");
    // unchanged path, watching requested
    w.update_location("/tmp".to_string(), true);
    assert!(w.is_watching());
    // unchanged path, not watching requested
    w.update_location("/tmp".to_string(), false);
    assert!(!w.is_watching());
    // changed path, watching requested
    w.update_location("/".to_string(), false);
    assert_eq!(w.location_path(), "/");
    assert!(!w.is_watching());
}
