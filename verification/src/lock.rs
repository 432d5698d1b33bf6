//! The structural-operation lock: one non-reentrant, non-blocking
//! try-acquire lock gates every operation that mutates the canonical
//! layout or the catalog at scale (a scan or a reorganization). A caller
//! that cannot acquire it fails immediately; nothing ever queues on it.

use vstd::prelude::*;

verus! {

/// The mutual-exclusion resource shared by the scan coordinator and the
/// organizer. It is an explicit value owned by the embedding runtime and
/// handed to whichever component needs it.
#[derive(Debug, Clone, PartialEq, Eq, Structural)]
pub struct StructuralLock {
    held: bool,
}

impl StructuralLock {
    /// A fresh, free lock.
    pub fn new() -> (r: StructuralLock)
        ensures
            !r.is_held(),
    {
        StructuralLock { held: false }
    }

    /// Whether the lock is held right now.
    pub closed spec fn is_held(&self) -> bool {
        self.held
    }

    /// Tries to take the lock without blocking: succeeds exactly when it
    /// was free, and holds it afterwards in either case ownership-wise
    /// (a failed attempt leaves the previous holder in place).
    pub fn try_acquire(&mut self) -> (r: bool)
        ensures
            r == !old(self).is_held(),
            final(self).is_held(),
            !r ==> *final(self) == *old(self),
    {
        if self.held {
            false
        } else {
            self.held = true;
            true
        }
    }

    /// Releases the lock.
    pub fn release(&mut self)
        requires
            old(self).is_held(),
        ensures
            !final(self).is_held(),
    {
        self.held = false;
    }

    /// The non-blocking "is a structural operation active" query exposed
    /// to the HTTP layer.
    pub fn is_locked(&self) -> (r: bool)
        ensures
            r == self.is_held(),
    {
        self.held
    }
}

/// While one structural operation holds the lock, another cannot start:
/// the second try-acquire fails, immediately, and the lock still belongs
/// to the first holder.
pub proof fn lemma_structural_exclusion(l0: StructuralLock, l1: StructuralLock, r1: bool, l2: StructuralLock, r2: bool)
    requires
        !l0.is_held(),
        // the first caller's acquisition
        r1 == !l0.is_held() && l1.is_held(),
        // the second caller's attempt against the resulting state
        r2 == !l1.is_held() && l2.is_held(),
    ensures
        r1,
        !r2,
{
}

} // verus!
