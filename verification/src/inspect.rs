//! Inspecting a ring through its bytes alone, whatever its payload type:
//! the version of each cell and whether the ring is consistent. Also the
//! record types of the feed that such rings carry.
use vstd::prelude::*;
use crate::error::QueueError;
use crate::layout::is_power_of_two;
use crate::layout::le_word;
use crate::layout::read_word;
use crate::model::changes;
use crate::model::consistent;
use crate::queue::QueueHeader;

verus! {

/// A ring seen as a header and the raw bytes of its cells.
pub struct GenericQueue {
    header: QueueHeader,
    buffer: Vec<u8>,
}

impl GenericQueue {
    /// The header.
    pub closed spec fn head(&self) -> QueueHeader {
        self.header
    }

    /// The bytes of the cells.
    pub closed spec fn bytes(&self) -> Seq<u8> {
        self.buffer@
    }

    /// Number of slots.
    pub open spec fn spec_len(&self) -> nat {
        (self.head().spec_mask() + 1) as nat
    }

    /// The header is that of an initialized ring, and every cell it
    /// describes lies within the bytes and has room for a version.
    pub open spec fn wf(&self) -> bool {
        &&& self.head().wf()
        &&& self.head().spec_initialized()
        &&& self.head().spec_elsize() >= 8
        &&& self.bytes().len() == self.spec_len() * self.head().spec_elsize()
    }

    /// The version word at the front of the cell at `pos`.
    pub open spec fn version_at(&self, pos: int) -> usize {
        le_word(self.bytes(), pos * self.head().spec_elsize()) as usize
    }

    /// The versions of all cells, in slot order.
    pub open spec fn versions(&self) -> Seq<usize> {
        Seq::new(self.spec_len(), |i: int| self.version_at(i))
    }

    /// Takes over the bytes behind a header that is already laid out.
    pub fn from_initialized_ptr(header: QueueHeader, buffer: Vec<u8>) -> (r: Result<
        GenericQueue,
        QueueError,
    >)
        ensures
            r.is_ok() <==> header.wf() && header.spec_initialized(),
            !header.wf() ==> r == Err::<GenericQueue, QueueError>(QueueError::LengthNotPowerOfTwo),
            header.wf() && !header.spec_initialized() ==> r == Err::<GenericQueue, QueueError>(
                QueueError::UnInitialized,
            ),
            r.is_ok() ==> r.unwrap().head() == header && r.unwrap().bytes() == buffer@,
    {
        if header.mask_is_full() {
            return Err(QueueError::LengthNotPowerOfTwo);
        }
        if !is_power_of_two(header.len()) {
            return Err(QueueError::LengthNotPowerOfTwo);
        }
        if !header.is_initialized() {
            return Err(QueueError::UnInitialized);
        }
        Ok(GenericQueue { header, buffer })
    }

    /// The version of the cell at `pos`.
    pub fn version(&self, pos: usize) -> (v: usize)
        requires
            self.wf(),
            pos < self.spec_len(),
        ensures
            v == self.version_at(pos as int),
    {
        let elsize: usize = self.header.elsize();
        let total: usize = self.buffer.len();
        proof {
            lemma_cell_in_bytes(pos as int, self.spec_len() as int, elsize as int);
            assert(total == self.spec_len() * elsize);
        }
        let start: usize = pos * elsize;
        #[verifier::truncate]
        (read_word(self.buffer.as_slice(), start) as usize)
    }

    /// Whether no cell is poisoned and the versions, in slot order, change
    /// at most once.
    pub fn verify(&self) -> (ok: bool)
        requires
            self.wf(),
        ensures
            ok == consistent(self.versions()),
    {
        let n: usize = self.header.len();
        let mut prev_v: usize = self.version(0);
        if prev_v % 2 == 1 {
            assert(self.versions()[0] % 2 == 1);
            return false;
        }
        let mut n_changes: usize = 0;
        let mut i: usize = 1;
        while i < n
            invariant
                self.wf(),
                1 <= i <= n,
                n == self.spec_len(),
                prev_v == self.versions()[i - 1],
                n_changes == changes(self.versions(), i as int),
                n_changes < i,
                forall|j: int| 0 <= j < i ==> #[trigger] self.versions()[j] % 2 == 0,
            decreases n - i,
        {
            let v: usize = self.version(i);
            if v % 2 == 1 {
                assert(self.versions()[i as int] % 2 == 1);
                return false;
            }
            if v != prev_v {
                n_changes = n_changes + 1;
                prev_v = v;
            }
            i = i + 1;
        }
        n_changes <= 1
    }
}

proof fn lemma_cell_in_bytes(pos: int, len: int, elsize: int)
    requires
        0 <= pos < len,
        elsize >= 8,
    ensures
        0 <= pos * elsize,
        pos * elsize + 8 <= len * elsize,
{
    assert(pos * elsize + elsize <= len * elsize) by (nonlinear_arith)
        requires
            0 <= pos < len,
            elsize >= 8,
    ;
    assert(0 <= pos * elsize) by (nonlinear_arith)
        requires
            0 <= pos,
            elsize >= 8,
    ;
}

/// Two clock readings of one message.
#[derive(Debug, Copy, Clone, PartialEq, Eq, Structural)]
pub struct Timestamp {
    pub ingestion_t: u64,
    pub exchange_t: u64,
}

impl Default for Timestamp {
    fn default() -> (t: Timestamp)
        ensures
            t == (Timestamp { ingestion_t: 0, exchange_t: 0 }),
    {
        Timestamp { ingestion_t: 0, exchange_t: 0 }
    }
}

/// What a feed ring carries.
#[derive(Debug)]
pub enum QueueMessage<T> {
    Data((u64, u64), T),
    TimeUpdate(u32, Timestamp),
    Stop,
}

impl<T: Copy> Clone for QueueMessage<T> {
    fn clone(&self) -> (m: QueueMessage<T>)
        ensures
            m == *self,
    {
        *self
    }
}

impl<T: Copy> Copy for QueueMessage<T> {

}

impl<T> Default for QueueMessage<T> {
    fn default() -> (m: QueueMessage<T>)
        ensures
            m == QueueMessage::<T>::Stop,
    {
        QueueMessage::Stop
    }
}

} // verus!
