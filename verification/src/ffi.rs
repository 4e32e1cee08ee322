//! The size-keyed surface behind the C entry points: status codes, and the
//! size-of and init operations for the supported payload sizes.
use vstd::prelude::*;
use vstd::arithmetic::power2::is_pow2;
use crate::error::QueueError;
use crate::error::ReadError;
use crate::layout::cell_bytes;
use crate::layout::cell_size;
use crate::layout::is_power_of_two;
use crate::layout::lemma_next_pow2;
use crate::layout::ring_bytes;
use crate::layout::ring_size;
use crate::layout::ring_supports;
use crate::layout::vector_bytes;
use crate::layout::vector_size;
use crate::layout::vector_supports;
use crate::queue::QueueHeader;
use crate::queue::QueueType;
use crate::vector::VectorHeader;

verus! {

/// The status an entry point reports.
#[derive(Debug, Clone, Copy, PartialEq, Eq, Structural)]
pub enum FFIError {
    Success,
    UnsupportedMessageSize,
    QueueLengthNotPowerTwo,
    QueueUnInitialized,
    QueueEmpty,
    SpedPast,
}

impl FFIError {
    /// The number that stands for this status across the C boundary.
    pub fn code(&self) -> (c: u32)
        ensures
            c == (match *self {
                FFIError::Success => 0u32,
                FFIError::UnsupportedMessageSize => 1u32,
                FFIError::QueueLengthNotPowerTwo => 2u32,
                FFIError::QueueUnInitialized => 3u32,
                FFIError::QueueEmpty => 4u32,
                FFIError::SpedPast => 5u32,
            }),
    {
        match self {
            FFIError::Success => 0,
            FFIError::UnsupportedMessageSize => 1,
            FFIError::QueueLengthNotPowerTwo => 2,
            FFIError::QueueUnInitialized => 3,
            FFIError::QueueEmpty => 4,
            FFIError::SpedPast => 5,
        }
    }

    /// The message shown for this status.
    pub fn message(&self) -> (s: &'static str)
        ensures
            s@ == (match *self {
                FFIError::Success => "Success"@,
                FFIError::UnsupportedMessageSize => "Unsupported message size"@,
                FFIError::QueueLengthNotPowerTwo => "Queue length is not power of two"@,
                FFIError::QueueUnInitialized => "Queue was not initialized. Use InitQueue"@,
                FFIError::QueueEmpty => "ReadError: Queue is empty"@,
                FFIError::SpedPast => "ReadError: Got sped past"@,
            }),
    {
        match self {
            FFIError::Success => "Success",
            FFIError::UnsupportedMessageSize => "Unsupported message size",
            FFIError::QueueLengthNotPowerTwo => "Queue length is not power of two",
            FFIError::QueueUnInitialized => "Queue was not initialized. Use InitQueue",
            FFIError::QueueEmpty => "ReadError: Queue is empty",
            FFIError::SpedPast => "ReadError: Got sped past",
        }
    }
}

impl From<ReadError> for FFIError {
    fn from(value: ReadError) -> (r: FFIError) {
        match value {
            ReadError::SpedPast => FFIError::SpedPast,
            ReadError::Empty => FFIError::QueueEmpty,
        }
    }
}

impl vstd::std_specs::convert::FromSpecImpl<ReadError> for FFIError {
    open spec fn obeys_from_spec() -> bool {
        true
    }

    open spec fn from_spec(value: ReadError) -> FFIError {
        match value {
            ReadError::SpedPast => FFIError::SpedPast,
            ReadError::Empty => FFIError::QueueEmpty,
        }
    }
}

impl From<QueueError> for FFIError {
    fn from(value: QueueError) -> (r: FFIError) {
        match value {
            QueueError::UnInitialized => FFIError::QueueUnInitialized,
            QueueError::LengthNotPowerOfTwo => FFIError::QueueLengthNotPowerTwo,
            QueueError::ElementSizeNotPowerTwo => FFIError::UnsupportedMessageSize,
        }
    }
}

impl vstd::std_specs::convert::FromSpecImpl<QueueError> for FFIError {
    open spec fn obeys_from_spec() -> bool {
        true
    }

    open spec fn from_spec(value: QueueError) -> FFIError {
        match value {
            QueueError::UnInitialized => FFIError::QueueUnInitialized,
            QueueError::LengthNotPowerOfTwo => FFIError::QueueLengthNotPowerTwo,
            QueueError::ElementSizeNotPowerTwo => FFIError::UnsupportedMessageSize,
        }
    }
}

impl From<Result<(), ReadError>> for FFIError {
    fn from(value: Result<(), ReadError>) -> (r: FFIError) {
        match value {
            Ok(_) => FFIError::Success,
            Err(e) => FFIError::from(e),
        }
    }
}

impl vstd::std_specs::convert::FromSpecImpl<Result<(), ReadError>> for FFIError {
    open spec fn obeys_from_spec() -> bool {
        true
    }

    open spec fn from_spec(value: Result<(), ReadError>) -> FFIError {
        match value {
            Ok(_) => FFIError::Success,
            Err(ReadError::SpedPast) => FFIError::SpedPast,
            Err(ReadError::Empty) => FFIError::QueueEmpty,
        }
    }
}

impl From<Result<(), QueueError>> for FFIError {
    fn from(value: Result<(), QueueError>) -> (r: FFIError) {
        match value {
            Ok(_) => FFIError::Success,
            Err(e) => FFIError::from(e),
        }
    }
}

impl vstd::std_specs::convert::FromSpecImpl<Result<(), QueueError>> for FFIError {
    open spec fn obeys_from_spec() -> bool {
        true
    }

    open spec fn from_spec(value: Result<(), QueueError>) -> FFIError {
        match value {
            Ok(_) => FFIError::Success,
            Err(QueueError::UnInitialized) => FFIError::QueueUnInitialized,
            Err(QueueError::LengthNotPowerOfTwo) => FFIError::QueueLengthNotPowerTwo,
            Err(QueueError::ElementSizeNotPowerTwo) => FFIError::UnsupportedMessageSize,
        }
    }
}

/// Whether a ring can be laid out for payloads of `msgsize_bytes` bytes.
pub fn ring_size_supported(msgsize_bytes: u32) -> (r: bool)
    ensures
        r == ring_supports(msgsize_bytes as nat),
{
    msgsize_bytes == 56 || msgsize_bytes == 120 || msgsize_bytes == 248 || msgsize_bytes == 504
        || msgsize_bytes == 1016 || msgsize_bytes == 2040 || msgsize_bytes == 4088
}

/// Whether a vector can be laid out for payloads of `msgsize_bytes` bytes.
pub fn vector_size_supported(msgsize_bytes: u32) -> (r: bool)
    ensures
        r == vector_supports(msgsize_bytes as nat),
{
    ring_size_supported(msgsize_bytes) || msgsize_bytes == 1656 || msgsize_bytes == 7224
}

/// Bytes of a vector of `len` cells for a supported payload size.
#[allow(non_snake_case)]
pub fn SeqlockVectorSizeInBytes(msgsize_bytes: u32, len: usize, vectorsize_in_bytes: &mut usize) -> (r:
    FFIError)
    requires
        vector_supports(msgsize_bytes as nat) ==> vector_size(msgsize_bytes as nat, len as nat)
            <= usize::MAX,
    ensures
        vector_supports(msgsize_bytes as nat) ==> r == FFIError::Success && *final(vectorsize_in_bytes) == vector_size(msgsize_bytes as nat, len as nat),
        !vector_supports(msgsize_bytes as nat) ==> r == FFIError::UnsupportedMessageSize && *final(vectorsize_in_bytes) == *old(vectorsize_in_bytes),
{
    if !vector_size_supported(msgsize_bytes) {
        return FFIError::UnsupportedMessageSize;
    }
    *vectorsize_in_bytes = vector_bytes(msgsize_bytes as usize, len);
    FFIError::Success
}

/// Fills a vector header in place for `len` cells of a supported payload
/// size.
#[allow(non_snake_case)]
pub fn InitSeqlockVector(header: &mut VectorHeader, msgsize_bytes: u32, len: usize) -> (r: FFIError)
    ensures
        vector_supports(msgsize_bytes as nat) ==> r == FFIError::Success && final(header).spec_bufsize() == len && final(header).spec_elsize() == cell_size(msgsize_bytes as nat),
        !vector_supports(msgsize_bytes as nat) ==> r == FFIError::UnsupportedMessageSize && *final(header) == *old(header),
{
    if !vector_size_supported(msgsize_bytes) {
        return FFIError::UnsupportedMessageSize;
    }
    header.init(cell_bytes(msgsize_bytes as usize), len);
    FFIError::Success
}

/// Bytes of a ring of `len` slots for a supported payload size.
pub fn queue_size_in_bytes(msgsize_bytes: u32, len: usize, queuesize_in_bytes: &mut usize) -> (r:
    FFIError)
    requires
        is_pow2(len as int) && ring_supports(msgsize_bytes as nat) ==> ring_size(
            msgsize_bytes as nat,
            len as nat,
        ) <= usize::MAX,
    ensures
        r == (if !is_pow2(len as int) {
            FFIError::QueueLengthNotPowerTwo
        } else if !ring_supports(msgsize_bytes as nat) {
            FFIError::UnsupportedMessageSize
        } else {
            FFIError::Success
        }),
        r == FFIError::Success ==> *final(queuesize_in_bytes) == 64 + len * cell_size(
            msgsize_bytes as nat,
        ),
        r != FFIError::Success ==> *final(queuesize_in_bytes) == *old(queuesize_in_bytes),
{
    if !is_power_of_two(len) {
        return FFIError::QueueLengthNotPowerTwo;
    }
    if !ring_size_supported(msgsize_bytes) {
        return FFIError::UnsupportedMessageSize;
    }
    proof {
        lemma_next_pow2(len as nat);
    }
    *queuesize_in_bytes = ring_bytes(msgsize_bytes as usize, len);
    FFIError::Success
}

/// Bytes of a ring of `len` slots for a supported payload size, for
/// callers that count slots in 32 bits.
#[allow(non_snake_case)]
pub fn QueueSizeInBytes(msgsize_bytes: u32, len: u32, queuesize_in_bytes: &mut usize) -> (r: FFIError)
    requires
        is_pow2(len as int) && ring_supports(msgsize_bytes as nat) ==> ring_size(
            msgsize_bytes as nat,
            len as nat,
        ) <= usize::MAX,
    ensures
        r == (if !is_pow2(len as int) {
            FFIError::QueueLengthNotPowerTwo
        } else if !ring_supports(msgsize_bytes as nat) {
            FFIError::UnsupportedMessageSize
        } else {
            FFIError::Success
        }),
        r == FFIError::Success ==> *final(queuesize_in_bytes) == 64 + len * cell_size(
            msgsize_bytes as nat,
        ),
        r != FFIError::Success ==> *final(queuesize_in_bytes) == *old(queuesize_in_bytes),
{
    queue_size_in_bytes(msgsize_bytes, len as usize, queuesize_in_bytes)
}

/// Fills a vector header in place, under the name the size-keyed C
/// surface gives this operation.
pub fn seqlockvector_size_in_bytes(header: &mut VectorHeader, msgsize_bytes: u32, len: usize) -> (r:
    FFIError)
    ensures
        vector_supports(msgsize_bytes as nat) ==> r == FFIError::Success && final(header).spec_bufsize() == len && final(header).spec_elsize() == cell_size(msgsize_bytes as nat),
        !vector_supports(msgsize_bytes as nat) ==> r == FFIError::UnsupportedMessageSize && *final(header) == *old(header),
{
    InitSeqlockVector(header, msgsize_bytes, len)
}

/// Fills a ring header in place for `len` slots of a supported payload
/// size.
#[allow(non_snake_case)]
pub fn InitQueue(header: &mut QueueHeader, queue_type: QueueType, msgsize_bytes: u32, len: usize) -> (r:
    FFIError)
    ensures
        r == (if !ring_supports(msgsize_bytes as nat) {
            FFIError::UnsupportedMessageSize
        } else if !is_pow2(len as int) {
            FFIError::QueueLengthNotPowerTwo
        } else {
            FFIError::Success
        }),
        r == FFIError::Success ==> {
            &&& final(header).wf()
            &&& final(header).spec_initialized()
            &&& final(header).spec_type() == queue_type
            &&& final(header).spec_elsize() == cell_size(msgsize_bytes as nat)
            &&& final(header).spec_mask() == len - 1
            &&& final(header).spec_count() == 0
        },
        r != FFIError::Success ==> *final(header) == *old(header),
{
    if !ring_size_supported(msgsize_bytes) {
        return FFIError::UnsupportedMessageSize;
    }
    if !is_power_of_two(len) {
        return FFIError::QueueLengthNotPowerTwo;
    }
    header.init(queue_type, cell_bytes(msgsize_bytes as usize), len);
    FFIError::Success
}

} // verus!
