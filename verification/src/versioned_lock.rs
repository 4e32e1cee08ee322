//! The versioned lock: the seqlock's plain-counter sibling. It refuses a
//! read before copying anything and hands out the version it read at.
use vstd::prelude::*;
use crate::error::ReadError;
use crate::seqlock::read_outcome;
use crate::seqlock::unpoisoned;

verus! {

/// A version counter in front of one payload.
pub struct VersionedLock<T> {
    version: usize,
    data: T,
}

impl<T: Copy> VersionedLock<T> {
    /// The lock's version counter.
    pub closed spec fn spec_version(&self) -> usize {
        self.version
    }

    /// The payload the lock holds.
    pub closed spec fn payload(&self) -> T {
        self.data
    }

    /// Creates a lock at version zero holding `val`.
    pub fn new(val: T) -> (s: VersionedLock<T>)
        ensures
            s.spec_version() == 0,
            s.payload() == val,
    {
        VersionedLock { version: 0, data: val }
    }

    /// Forces the version counter to any value, odd ones included.
    pub fn _set_version(&mut self, version: usize)
        ensures
            final(self).spec_version() == version,
            final(self).payload() == old(self).payload(),
    {
        self.version = version;
    }

    /// Sets the version counter to an even value.
    pub fn set_version(&mut self, version: usize)
        requires
            version % 2 == 0,
        ensures
            final(self).spec_version() == version,
            final(self).payload() == old(self).payload(),
    {
        self._set_version(version)
    }

    /// The current version.
    #[verifier::when_used_as_spec(spec_version)]
    pub fn version(&self) -> (v: usize)
        ensures
            v == self.spec_version(),
    {
        self.version
    }

    /// Versioned read. The payload is copied only where the read succeeds.
    pub fn read(&self, result: &mut T, expected_version: usize) -> (r: Result<(), ReadError>)
        ensures
            r == read_outcome(self.spec_version(), expected_version),
            r.is_ok() ==> *final(result) == self.payload(),
            r.is_err() ==> *final(result) == *old(result),
    {
        let v1: usize = self.version;
        if v1 < expected_version || (v1 == expected_version && v1 % 2 == 1) {
            return Err(ReadError::Empty);
        }
        if v1 > expected_version {
            return Err(ReadError::SpedPast);
        }
        *result = self.data;
        Ok(())
    }

    /// Latest-value read of a published lock; returns the version read at.
    pub fn read_no_ver(&self, result: &mut T) -> (v: usize)
        requires
            self.spec_version() % 2 == 0,
        ensures
            v == self.spec_version(),
            *final(result) == self.payload(),
    {
        *result = self.data;
        self.version
    }

    /// Replaces the payload and moves the version on by two, wrapping at
    /// the machine word.
    pub fn write(&mut self, val: &T)
        ensures
            final(self).spec_version() == old(self).spec_version().wrapping_add(2),
            final(self).payload() == *val,
    {
        let v: usize = self.version;
        self.version = v.wrapping_add(1);
        self.data = *val;
        self.version = v.wrapping_add(2);
    }

    /// Recovery write: replaces the payload and leaves the version at the
    /// even value that closes an interrupted write.
    pub fn write_unpoison(&mut self, val: &T)
        ensures
            final(self).spec_version() == unpoisoned(old(self).spec_version()),
            final(self).spec_version() % 2 == 0,
            final(self).payload() == *val,
    {
        let v: usize = self.version;
        let odd: usize = if v % 2 == 1 {
            v
        } else {
            v.wrapping_sub(1)
        };
        self.version = odd;
        self.data = *val;
        self.version = odd.wrapping_add(1);
    }
}

impl<T: Copy + Default> Default for VersionedLock<T> {
    fn default() -> (s: VersionedLock<T>)
        ensures
            s.spec_version() == 0,
    {
        VersionedLock::new(Default::default())
    }
}

} // verus!
