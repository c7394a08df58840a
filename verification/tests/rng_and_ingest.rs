use location_watcher::ingest::{step, Event, Request, State};
use location_watcher::primitives::SALT_LEN;
use location_watcher::rng::CryptoRng;

#[test]
fn generate_bytes() {
    let bytes = CryptoRng::generate_vec(SALT_LEN);
    let bytes2 = CryptoRng::generate_vec(SALT_LEN);

    assert!(bytes.iter().any(|b| *b != 0));
    assert_ne!(bytes, bytes2);
    assert_eq!(bytes.len(), SALT_LEN);
    assert_eq!(bytes2.len(), SALT_LEN);
}

#[test]
fn generate_fixed() {
    let bytes: [u8; SALT_LEN] = CryptoRng::generate_fixed();
    let bytes2: [u8; SALT_LEN] = CryptoRng::generate_fixed();

    assert!(bytes.iter().any(|b| *b != 0));
    assert_ne!(bytes, bytes2);
    assert_eq!(bytes.len(), SALT_LEN);
    assert_eq!(bytes2.len(), SALT_LEN);
}

#[test]
fn actor_walks_through_its_states() {
    let (s, req) = step(State::WaitingForNotification, Event::Notification);
    assert_eq!(s, State::ExecutingMessagesRequest);
    assert_eq!(req, Some(Request::Messages(69)));

    let (s, req) = step(s, Event::Messages(5));
    assert_eq!(s, State::Ingesting);
    assert_eq!(req, None);

    let (s, req) = step(s, Event::Notification);
    assert_eq!(s, State::WaitingForNotification);
    assert_eq!(req, None);
}

#[test]
fn actor_ignores_unexpected_events() {
    let (s, req) = step(State::WaitingForNotification, Event::Messages(1));
    assert_eq!(s, State::WaitingForNotification);
    assert_eq!(req, None);

    let (s, req) = step(State::ExecutingMessagesRequest, Event::Notification);
    assert_eq!(s, State::ExecutingMessagesRequest);
    assert_eq!(req, None);
}
