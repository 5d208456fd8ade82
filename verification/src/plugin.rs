//! The place of an implementation that a user of the library brings.

use vstd::prelude::*;

verus! {

/// An implementation of one of the library's traits, at its place in a tool or
/// in a registry.
pub struct Plugin<T> {
    pub inner: T,
}

impl<T> Plugin<T> {
    pub fn new(inner: T) -> (r: Self)
        ensures
            r.inner == inner,
    {
        Plugin { inner }
    }
}

} // verus!
