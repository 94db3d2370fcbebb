//! A value wrapper that counts mutable accesses, so a caller can tell
//! whether anything changed since the count was last reset.

use vstd::prelude::*;

verus! {

/// A value together with the number of mutable accesses since the last
/// reset.
#[derive(Debug)]
pub struct MutCount<T> {
    pub unwrapped: T,
    pub mut_count: u8,
}

impl<T> MutCount<T> {
    /// Wraps a value with the access count already marked once, so a
    /// fresh wrapper reads as changed until it is reset.
    pub fn new(unwrapped: T) -> (r: MutCount<T>)
        ensures
            r.unwrapped == unwrapped,
            r.mut_count == 1,
    {
        MutCount { unwrapped, mut_count: 1 }
    }

    /// Marks the value unchanged.
    pub fn reset_mut_count(&mut self)
        ensures
            final(self).mut_count == 0,
            final(self).unwrapped == old(self).unwrapped,
    {
        self.mut_count = 0;
    }

    /// Reads the value without marking it.
    pub fn get(&self) -> (r: &T)
        ensures
            *r == self.unwrapped,
    {
        &self.unwrapped
    }

    /// Borrows the value mutably, counting the access.
    pub fn get_mut(&mut self) -> (r: &mut T)
        requires
            old(self).mut_count < 255,
        ensures
            *r == old(self).unwrapped,
            final(self).unwrapped == *final(r),
            final(self).mut_count == old(self).mut_count + 1,
    {
        self.mut_count = self.mut_count + 1;
        &mut self.unwrapped
    }
}

impl<T> From<T> for MutCount<T> {
    /// Wraps a value without marking it changed.
    fn from(unwrapped: T) -> (r: MutCount<T>) {
        MutCount { unwrapped, mut_count: 0 }
    }
}

impl<T> vstd::std_specs::convert::FromSpecImpl<T> for MutCount<T> {
    open spec fn obeys_from_spec() -> bool {
        true
    }

    open spec fn from_spec(unwrapped: T) -> MutCount<T> {
        MutCount { unwrapped, mut_count: 0 }
    }
}

} // verus!
