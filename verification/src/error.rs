//! The two error taxonomies: read errors and construction errors.
use vstd::prelude::*;

verus! {

/// Why a versioned read did not deliver a payload.
#[derive(Debug, Copy, Clone, PartialEq, Eq, Structural)]
pub enum ReadError {
    /// The writer has lapped this reader.
    SpedPast,
    /// The expected cell has not been published yet.
    Empty,
}

/// Why a container could not be constructed.
#[derive(Debug, Copy, Clone, PartialEq, Eq, Structural)]
pub enum QueueError {
    /// The header does not carry the initialized flag.
    UnInitialized,
    /// The requested length is not a power of two.
    LengthNotPowerOfTwo,
    /// The element size is not among the supported ones.
    ElementSizeNotPowerTwo,
}

impl ReadError {
    /// The message shown for this error.
    pub fn message(&self) -> (s: &'static str)
        ensures
            s@ == (match *self {
                ReadError::SpedPast => "Got sped past"@,
                ReadError::Empty => "Lock empty"@,
            }),
    {
        match self {
            ReadError::SpedPast => "Got sped past",
            ReadError::Empty => "Lock empty",
        }
    }
}

impl QueueError {
    /// The message shown for this error.
    pub fn message(&self) -> (s: &'static str)
        ensures
            s@ == (match *self {
                QueueError::UnInitialized => "Queue not initialized"@,
                QueueError::LengthNotPowerOfTwo => "Queue length not power of two"@,
                QueueError::ElementSizeNotPowerTwo => "Element size not power of two - 4"@,
            }),
    {
        match self {
            QueueError::UnInitialized => "Queue not initialized",
            QueueError::LengthNotPowerOfTwo => "Queue length not power of two",
            QueueError::ElementSizeNotPowerTwo => "Element size not power of two - 4",
        }
    }
}

} // verus!
