//! Port primitives for hosted targets.
//!
//! On a bare-metal target a critical section is entered by masking
//! interrupts; on a hosted target there is nothing to mask, and the token
//! only witnesses that the caller follows the critical-section discipline.
//! The `Mutex` pairs a value with that discipline: the value is read
//! through a token, and the coordination that makes this sound is the
//! caller's, exactly as the lock-free pool logic coordinates through its
//! atomic head.

use vstd::prelude::*;

verus! {

/// Token witnessing execution inside a critical section. Meant for
/// building safe abstractions, not for direct use by applications.
pub struct CriticalSection {
    witness: (),
}

impl CriticalSection {
    /// Creates a critical-section token.
    pub fn new() -> CriticalSection {
        CriticalSection { witness: () }
    }
}

/// A value readable only inside a critical section.
pub struct Mutex<T> {
    inner: T,
}

impl<T> Mutex<T> {
    /// The protected value.
    pub closed spec fn value(&self) -> T {
        self.inner
    }

    /// Creates a new mutex protecting `value`.
    pub fn new(value: T) -> (r: Mutex<T>)
        ensures
            r.value() == value,
    {
        Mutex { inner: value }
    }

    /// Borrows the protected value for the duration of the critical
    /// section the token witnesses.
    pub fn borrow<'cs>(&'cs self, _cs: &'cs CriticalSection) -> (r: &'cs T)
        ensures
            *r == self.value(),
    {
        &self.inner
    }
}

} // verus!
