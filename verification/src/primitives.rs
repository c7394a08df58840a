//! Constant values used around the crate: lengths for keys, nonces and salts,
//! the STREAM block size, and the parameter sets for the password hashers.

use vstd::prelude::*;

verus! {

/// This is the salt size
pub const SALT_LEN: usize = 16;

/// The nonce size for XChaCha20-Poly1305, minus the last 4 bytes (due to STREAM with a 31+1 bit counter)
pub const XCHACHA20_POLY1305_NONCE_LEN: usize = 20;

/// The nonce size for AES-256-GCM, minus the last 4 bytes (due to STREAM with a 31+1 bit counter)
pub const AES_256_GCM_NONCE_LEN: usize = 8;

/// The length of the secret key, in bytes.
pub const SECRET_KEY_LEN: usize = 18;

/// The block size used for STREAM encryption/decryption.
pub const BLOCK_LEN: usize = 1_048_576;

/// This is the default AEAD tag size for all encryption algorithms used within the crate.
pub const AEAD_TAG_LEN: usize = 16;

/// Length of the AAD
pub const AAD_LEN: usize = 32;

/// The length of plain master/hashed keys
pub const KEY_LEN: usize = 32;

/// The length of encrypted master keys
pub const ENCRYPTED_KEY_LEN: usize = KEY_LEN + AEAD_TAG_LEN;

/// Used for OS keyrings to identify our items.
pub const APP_IDENTIFIER: &'static str = "Spacedrive";

/// Used for OS keyrings to identify our items.
pub const SECRET_KEY_IDENTIFIER: &'static str = "Secret key";

/// Memory cost, iterations and parallelism for Argon2id at the standard level.
pub const ARGON2ID_STANDARD: (u32, u32, u32) = (131_072, 8, 4);

/// Memory cost, iterations and parallelism for Argon2id at the hardened level.
pub const ARGON2ID_HARDENED: (u32, u32, u32) = (262_144, 8, 4);

/// Memory cost, iterations and parallelism for Argon2id at the paranoid level.
pub const ARGON2ID_PARANOID: (u32, u32, u32) = (524_288, 8, 4);

/// Memory cost, iterations and parallelism for BLAKE3-Balloon at the standard level.
pub const BALLOON_BLAKE3_STANDARD: (u32, u32, u32) = (131_072, 2, 1);

/// Memory cost, iterations and parallelism for BLAKE3-Balloon at the hardened level.
pub const BALLOON_BLAKE3_HARDENED: (u32, u32, u32) = (262_144, 2, 1);

/// Memory cost, iterations and parallelism for BLAKE3-Balloon at the paranoid level.
pub const BALLOON_BLAKE3_PARANOID: (u32, u32, u32) = (524_288, 2, 1);

/// The AEAD algorithms used within the crate.
#[derive(Debug, Clone, Copy, PartialEq, Eq, Structural)]
pub enum Algorithm {
    XChaCha20Poly1305,
    Aes256Gcm,
}

impl Algorithm {
    /// The nonce length the algorithm uses, minus the STREAM counter bytes.
    pub fn nonce_len(&self) -> (r: usize)
        ensures
            r == match self {
                Algorithm::XChaCha20Poly1305 => XCHACHA20_POLY1305_NONCE_LEN,
                Algorithm::Aes256Gcm => AES_256_GCM_NONCE_LEN,
            },
    {
        match self {
            Algorithm::XChaCha20Poly1305 => XCHACHA20_POLY1305_NONCE_LEN,
            Algorithm::Aes256Gcm => AES_256_GCM_NONCE_LEN,
        }
    }
}

impl Default for Algorithm {
    /// XChaCha20-Poly1305 is the default algorithm.
    fn default() -> (r: Self)
        ensures
            r == Algorithm::XChaCha20Poly1305,
    {
        Algorithm::XChaCha20Poly1305
    }
}

} // verus!
