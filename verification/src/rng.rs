//! Random byte generation, through the rand_chacha crate.

use vstd::prelude::*;

verus! {

#[verifier::external_type_specification]
#[verifier::external_body]
pub struct ExChaCha20Rng(rand_chacha::ChaCha20Rng);

/// The RNG used throughout the crate: a ChaCha20 generator seeded from the
/// operating system's entropy source.
pub struct CryptoRng {
    inner: Box<rand_chacha::ChaCha20Rng>,
}

impl CryptoRng {
    /// Relies on rand's `SeedableRng::from_entropy` for `ChaCha20Rng`: a
    /// generator freshly seeded from the operating system. The seed is
    /// entropy, so nothing is promised of the values it will produce.
    #[verifier::external_body]
    pub fn from_entropy() -> Self {
        CryptoRng { inner: Box::new(<rand_chacha::ChaCha20Rng as rand::SeedableRng>::from_entropy()) }
    }

    /// Relies on rand's `RngCore::fill_bytes` for `ChaCha20Rng`: overwrites
    /// the buffer in place. The contents depend on the generator state, so
    /// only the unchanged length is promised.
    #[verifier::external_body]
    pub fn fill_bytes(&mut self, dest: &mut Vec<u8>)
        ensures
            final(dest)@.len() == old(dest)@.len(),
    {
        rand::RngCore::fill_bytes(&mut *self.inner, dest.as_mut_slice());
    }

    /// Relies on rand's `RngCore::fill_bytes` for `ChaCha20Rng`: overwrites
    /// the array in place; its length is fixed by its type.
    #[verifier::external_body]
    pub fn fill_array<const N: usize>(&mut self, dest: &mut [u8; N]) {
        rand::RngCore::fill_bytes(&mut *self.inner, dest);
    }

    /// `N` random bytes on the stack.
    pub fn generate_fixed<const N: usize>() -> [u8; N] {
        let mut bytes = [0u8; N];
        let mut rng = Self::from_entropy();
        rng.fill_array(&mut bytes);
        bytes
    }

    /// `size` random bytes.
    pub fn generate_vec(size: usize) -> (r: Vec<u8>)
        ensures
            r@.len() == size,
    {
        let mut bytes: Vec<u8> = vec![0u8; size];
        let mut rng = Self::from_entropy();
        rng.fill_bytes(&mut bytes);
        bytes
    }
}

} // verus!
