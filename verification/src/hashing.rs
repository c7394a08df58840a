//! Hashing, through the blake3 crate.

use vstd::prelude::*;

verus! {

/// The hex digest that BLAKE3 assigns to a byte sequence: a function of the
/// input bytes alone.
pub uninterp spec fn blake3_hex_of(bytes: Seq<u8>) -> Seq<char>;

/// The hashing entry points used around the crate.
pub struct Hasher;

impl Hasher {
    /// Relies on `blake3::hash` and `blake3::Hash::to_hex`: the digest is 32
    /// bytes, rendered as 64 lowercase hex characters, and depends on the
    /// input bytes alone.
    #[verifier::external_body]
    pub(crate) fn blake3_hex(bytes: &[u8]) -> (r: String)
        ensures
            r@ == blake3_hex_of(bytes@),
            r@.len() == 64,
    {
        blake3::hash(bytes).to_hex().as_str().to_owned()
    }
}

} // verus!
