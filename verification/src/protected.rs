//! A thin wrapper marking a value as secret: the value is reached only
//! through `expose`, so accidental uses stand out in the code.

use vstd::prelude::*;

verus! {

/// A secret value.
#[derive(Clone)]
pub struct Protected<T> {
    value: T,
}

impl<T> Protected<T> {
    /// The wrapped value.
    pub closed spec fn spec_inner(&self) -> T {
        self.value
    }

    pub fn new(value: T) -> (r: Self)
        ensures
            r.spec_inner() == value,
    {
        Protected { value }
    }

    /// Read the secret.
    pub fn expose(&self) -> (r: &T)
        ensures
            *r == self.spec_inner(),
    {
        &self.value
    }

    /// Unwrap the secret.
    pub fn into_inner(self) -> (r: T)
        ensures
            r == self.spec_inner(),
    {
        self.value
    }
}

} // verus!
