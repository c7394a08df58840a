use location_watcher::primitives::{
    Algorithm, AAD_LEN, AEAD_TAG_LEN, AES_256_GCM_NONCE_LEN, ARGON2ID_HARDENED, ARGON2ID_PARANOID,
    ARGON2ID_STANDARD, BALLOON_BLAKE3_HARDENED, BALLOON_BLAKE3_PARANOID, BALLOON_BLAKE3_STANDARD,
    BLOCK_LEN, ENCRYPTED_KEY_LEN, KEY_LEN, SECRET_KEY_LEN, XCHACHA20_POLY1305_NONCE_LEN,
};

#[test]
fn argon2id_standard_params() {
    assert_eq!(ARGON2ID_STANDARD, (131_072, 8, 4));
}

#[test]
fn argon2id_hardened_params() {
    assert_eq!(ARGON2ID_HARDENED, (262_144, 8, 4));
}

#[test]
fn argon2id_paranoid_params() {
    assert_eq!(ARGON2ID_PARANOID, (524_288, 8, 4));
}

#[test]
fn balloon_blake3_standard_params() {
    assert_eq!(BALLOON_BLAKE3_STANDARD, (131_072, 2, 1));
}

#[test]
fn balloon_blake3_hardened_params() {
    assert_eq!(BALLOON_BLAKE3_HARDENED, (262_144, 2, 1));
}

#[test]
fn balloon_blake3_paranoid_params() {
    assert_eq!(BALLOON_BLAKE3_PARANOID, (524_288, 2, 1));
}

#[test]
fn block_len() {
    assert_eq!(BLOCK_LEN, 1_048_576);
}

#[test]
fn secret_key_len() {
    assert_eq!(SECRET_KEY_LEN, 18);
}

#[test]
fn key_len() {
    assert_eq!(KEY_LEN, 32);
}

#[test]
fn aead_tag_len() {
    assert_eq!(AEAD_TAG_LEN, 16);
}

#[test]
fn encrypted_key_len() {
    assert_eq!(ENCRYPTED_KEY_LEN, 48);
}

#[test]
fn aad_len() {
    assert_eq!(AAD_LEN, 32);
}

#[test]
fn xchacha20_poly1305_nonce_len() {
    assert_eq!(XCHACHA20_POLY1305_NONCE_LEN, 20);
}

#[test]
fn aes_256_gcm_nonce_len() {
    assert_eq!(AES_256_GCM_NONCE_LEN, 8);
}

#[test]
fn algorithm_nonce_lens() {
    assert_eq!(Algorithm::XChaCha20Poly1305.nonce_len(), 20);
    assert_eq!(Algorithm::Aes256Gcm.nonce_len(), 8);
}

#[test]
fn algorithm_default_is_xchacha() {
    assert_eq!(Algorithm::default(), Algorithm::XChaCha20Poly1305);
}
