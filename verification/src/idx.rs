//! Allocation of node identifiers: unique, monotonically increasing values
//! handed to every tree node at construction time. Identifiers give external
//! collaborators a stable identity for interactive widgets; they never carry
//! meaning for evaluation.

use vstd::prelude::*;

verus! {

/// A generator of fresh node identifiers. Identifiers increase strictly
/// until the counter is exhausted, at which point it wraps around.
pub struct IdGen {
    next: u64,
}

impl IdGen {
    /// The next identifier this generator will hand out.
    pub closed spec fn spec_next(&self) -> u64 {
        self.next
    }

    pub fn new() -> (r: IdGen)
        ensures
            r.spec_next() == 0,
    {
        IdGen { next: 0 }
    }

    /// Hands out the current counter value and advances the counter,
    /// wrapping at the end of the `u64` range.
    pub fn new_id(&mut self) -> (r: u64)
        ensures
            r == old(self).spec_next(),
            old(self).spec_next() < u64::MAX ==> final(self).spec_next() == old(self).spec_next() + 1,
            old(self).spec_next() == u64::MAX ==> final(self).spec_next() == 0,
    {
        let id = self.next;
        if self.next == u64::MAX {
            self.next = 0;
        } else {
            self.next = self.next + 1;
        }
        id
    }
}

} // verus!
