//! Advisory mutual-exclusion flag guarding each kernel service.  A second
//! acquisition while the flag is held is a reentrancy bug; the flag makes
//! it detectable, and taking the lock demands a free flag rather than
//! deadlocking or corrupting state silently.

use vstd::prelude::*;

verus! {

/// A value guarded by an advisory lock flag.
pub struct Lock<T> {
    active: bool,
    data: T,
}

impl<T> Lock<T> {
    /// Whether the lock is currently held.
    pub closed spec fn held(&self) -> bool {
        self.active
    }

    /// The guarded value.
    pub closed spec fn value(&self) -> T {
        self.data
    }

    /// Wraps `data`, unlocked.
    pub fn new(data: T) -> (l: Lock<T>)
        ensures
            !l.held(),
            l.value() == data,
    {
        Lock { active: false, data }
    }

    /// Takes the lock.  Re-entrant acquisition is ruled out by the
    /// precondition: a second acquisition of a held flag is a bug that
    /// must fail loudly rather than deadlock.
    pub fn lock(&mut self) -> (v: &T)
        requires
            !old(self).held(),
        ensures
            final(self).held(),
            final(self).value() == old(self).value(),
            v == old(self).value(),
    {
        self.active = true;
        &self.data
    }

    /// Whether the lock is held, observably.
    pub fn is_locked(&self) -> (r: bool)
        ensures
            r == self.held(),
    {
        self.active
    }

    /// Releases the lock.
    pub fn free(&mut self)
        ensures
            !final(self).held(),
            final(self).value() == old(self).value(),
    {
        self.active = false;
    }

    /// Replaces the guarded value while holding the lock.
    pub fn store(&mut self, data: T)
        requires
            old(self).held(),
        ensures
            final(self).held(),
            final(self).value() == data,
    {
        self.data = data;
    }
}

} // verus!
