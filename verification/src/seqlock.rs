//! The seqlock cell: a version counter in front of a payload.
//!
//! An even version marks a published payload, an odd one a cell whose writer
//! has started and not finished. The cell is modelled as an owned value: a
//! write is one step from a published state to the next.
use vstd::prelude::*;
use crate::error::ReadError;

verus! {

/// What a versioned read reports for a cell at `version` when the reader
/// expects `expected`: a payload only at exactly the expected, even version;
/// `SpedPast` once the cell is beyond it; `Empty` while it has not got there.
pub open spec fn read_outcome(version: usize, expected: usize) -> Result<(), ReadError> {
    if version > expected {
        Err(ReadError::SpedPast)
    } else if version == expected && version % 2 == 0 {
        Ok(())
    } else {
        Err(ReadError::Empty)
    }
}

/// The version a cell is left at by recovery from `version`: the next even
/// value from an odd one, the same value from an even one.
pub open spec fn unpoisoned(version: usize) -> usize {
    if version % 2 == 1 {
        version.wrapping_add(1)
    } else {
        version
    }
}

/// A sequential lock around one payload.
pub struct Seqlock<T> {
    version: usize,
    data: T,
}

impl<T: Copy> Seqlock<T> {
    /// The cell's version counter.
    pub closed spec fn spec_version(&self) -> usize {
        self.version
    }

    /// The payload the cell holds.
    pub closed spec fn payload(&self) -> T {
        self.data
    }

    /// A cell is poisoned while its version is odd.
    pub open spec fn is_poisoned(&self) -> bool {
        self.spec_version() % 2 == 1
    }

    /// Creates a cell at version zero holding `val`.
    pub fn new(val: T) -> (s: Seqlock<T>)
        ensures
            s.spec_version() == 0,
            s.payload() == val,
    {
        Seqlock { version: 0, data: val }
    }

    /// Forces the version counter, leaving the payload alone.
    pub fn set_version(&mut self, version: usize)
        ensures
            final(self).spec_version() == version,
            final(self).payload() == old(self).payload(),
    {
        self.version = version;
    }

    /// The current version.
    #[verifier::when_used_as_spec(spec_version)]
    pub fn version(&self) -> (v: usize)
        ensures
            v == self.spec_version(),
    {
        self.version
    }

    /// Versioned read. Copies the payload into `result` unless the cell has
    /// not reached `expected_version` yet, and reports how the cell's version
    /// stands to the expected one.
    pub fn read(&self, result: &mut T, expected_version: usize) -> (r: Result<(), ReadError>)
        ensures
            r == read_outcome(self.spec_version(), expected_version),
            r == Err::<(), ReadError>(ReadError::Empty) ==> *final(result) == *old(result),
            r != Err::<(), ReadError>(ReadError::Empty) ==> *final(result) == self.payload(),
    {
        let v1: usize = self.version;
        if v1 < expected_version || (v1 == expected_version && v1 % 2 == 1) {
            return Err(ReadError::Empty);
        }
        *result = self.data;
        let v2: usize = self.version;
        if v2 == expected_version {
            Ok(())
        } else {
            Err(ReadError::SpedPast)
        }
    }

    /// Latest-value read of a published cell.
    pub fn read_no_ver(&self, result: &mut T)
        requires
            !self.is_poisoned(),
        ensures
            *final(result) == self.payload(),
    {
        *result = self.data;
    }

    /// Latest-value read of a published cell, by value.
    pub fn read_copy(&self) -> (out: T)
        requires
            !self.is_poisoned(),
        ensures
            out == self.payload(),
    {
        self.data
    }

    /// Single-writer write: the payload is replaced and the version moves on
    /// by two, wrapping at the machine word.
    pub fn write(&mut self, val: &T)
        ensures
            final(self).spec_version() == old(self).spec_version().wrapping_add(2),
            final(self).payload() == *val,
    {
        let v: usize = self.version;
        self.version = v.wrapping_add(1);
        self.data = *val;
        self.version = v.wrapping_add(2);
    }

    /// Recovery write for a cell that a writer left poisoned: the payload is
    /// replaced and the version ends at the even value that closes the
    /// interrupted write.
    pub fn write_unpoison(&mut self, val: &T)
        ensures
            final(self).spec_version() == unpoisoned(old(self).spec_version()),
            !final(self).is_poisoned(),
            final(self).payload() == *val,
    {
        let v: usize = self.version;
        let odd: usize = if v % 2 == 1 { v } else { v.wrapping_sub(1) };
        self.version = odd;
        self.data = *val;
        self.version = odd.wrapping_add(1);
    }

    /// Multi-writer write. It claims a published cell by setting the low bit
    /// of the version, replaces the payload and publishes two above the
    /// version it claimed.
    pub fn write_multi(&mut self, val: &T)
        requires
            !old(self).is_poisoned(),
        ensures
            final(self).spec_version() == old(self).spec_version().wrapping_add(2),
            final(self).payload() == *val,
    {
        let v: usize = self.version;
        self.version = v + 1;
        self.data = *val;
        self.version = v.wrapping_add(2);
    }
}

impl<T: Copy + Default> Default for Seqlock<T> {
    fn default() -> (s: Seqlock<T>)
        ensures
            s.spec_version() == 0,
    {
        Seqlock::new(Default::default())
    }
}

/// Successive writes move the version on in steps of two: it never goes
/// down short of the machine word wrapping.
pub proof fn lemma_write_steps_by_two(version: usize)
    ensures
        version as int + 2 <= usize::MAX ==> version.wrapping_add(2) == version + 2,
        version.wrapping_add(2) % 2 == version % 2,
{
}

} // verus!
