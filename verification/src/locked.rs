//! Locking wrapper: the single exclusive access point through which the
//! rest of the kernel reaches the one process-wide allocator instance.
//! In the running kernel the exclusion is a spin lock around the inner
//! state; in this verified model the exclusivity is carried by the
//! `&mut` borrow that `lock` hands out — while the borrow lives, no
//! other path to the inner state exists, which is exactly the scoped
//! critical section the lock provides.

use vstd::prelude::*;

verus! {

/// Wraps one allocator state behind an exclusive access point.
pub struct Locked<A> {
    pub inner: A,
}

impl<A> Locked<A> {
    /// Constructs the wrapper around a strategy instance.
    pub fn new(inner: A) -> (r: Self)
        ensures
            r.inner == inner,
    {
        Locked { inner }
    }

    /// Exclusive access to the inner state for the duration of the
    /// borrow, released automatically when the borrow ends.
    pub fn lock(&mut self) -> (r: &mut A)
        ensures
            *r == old(self).inner,
            *final(self) == (Locked { inner: *final(r) }),
    {
        &mut self.inner
    }
}

} // verus!
