use location_watcher::keyring::{
    Identifier, Keyring, KeyringError, KeyringInterface, KeyringName, KeyringType, SessionKeyring,
};
use location_watcher::protected::Protected;

#[test]
fn full_portable() {
    let password = Protected::new("SuperSecurePassword".to_string());
    let identifier = Identifier::new("0000-0000-0000-0000", "Password", "Crypto");
    let mut keyring = Keyring::new(KeyringType::Portable).unwrap();

    keyring.insert(&identifier, password.clone()).unwrap();
    assert!(keyring.contains_key(&identifier));

    let pw = keyring.get(&identifier).unwrap();

    assert_eq!(pw.expose(), password.expose());

    keyring.remove(&identifier).unwrap();

    assert!(!keyring.contains_key(&identifier));
}

#[test]
fn default_backend_round_trip() {
    let identifier = Identifier::new("id", "usage", "app");
    let mut keyring = Keyring::new(KeyringType::Default).unwrap();
    assert!(!keyring.contains_key(&identifier));
    keyring
        .insert(&identifier, Protected::new("secret".to_string()))
        .unwrap();
    assert_eq!(keyring.get(&identifier).unwrap().expose(), "secret");
}

#[test]
fn insert_replaces_earlier_item() {
    let identifier = Identifier::new("id", "usage", "app");
    let mut keyring = Keyring::new(KeyringType::Portable).unwrap();
    keyring
        .insert(&identifier, Protected::new("first".to_string()))
        .unwrap();
    keyring
        .insert(&identifier, Protected::new("second".to_string()))
        .unwrap();
    assert_eq!(keyring.get(&identifier).unwrap().expose(), "second");
}

#[test]
fn get_and_remove_absent_item_fail() {
    let identifier = Identifier::new("absent", "usage", "app");
    let mut keyring = Keyring::new(KeyringType::Portable).unwrap();
    assert!(matches!(keyring.get(&identifier), Err(KeyringError::Keyring)));
    assert!(matches!(keyring.remove(&identifier), Err(KeyringError::Keyring)));
}

#[test]
fn items_are_kept_apart_by_identifier() {
    let a = Identifier::new("a", "usage", "app");
    let b = Identifier::new("b", "usage", "app");
    let mut keyring = Keyring::new(KeyringType::Portable).unwrap();
    keyring.insert(&a, Protected::new("va".to_string())).unwrap();
    keyring.insert(&b, Protected::new("vb".to_string())).unwrap();
    assert_eq!(keyring.get(&a).unwrap().expose(), "va");
    assert_eq!(keyring.get(&b).unwrap().expose(), "vb");
    keyring.remove(&a).unwrap();
    assert!(!keyring.contains_key(&a));
    assert!(keyring.contains_key(&b));
}

#[test]
fn identifier_hash_shape() {
    let identifier = Identifier::new("0000-0000-0000-0000", "Password", "Crypto");
    let hash = identifier.hash();
    // application name, a colon, then 64 lowercase hex digits
    assert_eq!(hash.len(), "Crypto".len() + 1 + 64);
    assert!(hash.starts_with("Crypto:"));
    let digest = &hash["Crypto:".len()..];
    assert!(digest.chars().all(|c| c.is_ascii_hexdigit()));
    // the digest really digests: it is not the identifier text itself
    assert_ne!(digest, "0000-0000-0000-0000");
}

#[test]
fn identifier_hash_is_deterministic() {
    let a = Identifier::new("id", "usage", "app");
    let b = Identifier::new("id", "usage", "app");
    assert_eq!(a.hash(), b.hash());
    let c = Identifier::new("other", "usage", "app");
    assert_ne!(a.hash(), c.hash());
}

#[test]
fn backend_names() {
    let keyring = Keyring::new(KeyringType::Portable).unwrap();
    assert_eq!(keyring.name(), KeyringName::Portable);
    let session = SessionKeyring::new().unwrap();
    assert_eq!(session.name(), KeyringName::Session);
}

#[test]
fn session_keyring_round_trip() {
    let identifier = Identifier::new("id", "usage", "app");
    let mut session = SessionKeyring::new().unwrap();
    session
        .insert(&identifier, Protected::new("secret".to_string()))
        .unwrap();
    assert!(session.contains_key(&identifier));
    assert_eq!(session.get(&identifier).unwrap().expose(), "secret");
    session.remove(&identifier).unwrap();
    assert!(!session.contains_key(&identifier));
}

#[test]
fn identifier_accessors() {
    let identifier = Identifier::new("id", "usage", "app");
    assert_eq!(identifier.application(), "app");
    assert_eq!(identifier.as_apple_account(), "id - usage");
}
