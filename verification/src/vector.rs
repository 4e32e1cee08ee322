//! The vector container: a fixed number of seqlock cells addressed by
//! index, with no publish count and no order between positions.
use vstd::prelude::*;
use crate::layout::cell_bytes;
use crate::layout::cell_size;
use crate::layout::le_word;
use crate::layout::lemma_word_round_trip;
use crate::layout::push_word;
use crate::layout::read_word;
use crate::layout::word_bytes;
use crate::layout::vector_bytes;
use crate::layout::vector_size;
use crate::seqlock::Seqlock;

verus! {

/// The vector header: bytes per cell and number of cells.
#[derive(Debug)]
pub struct VectorHeader {
    elsize: usize,
    bufsize: usize,
}

impl VectorHeader {
    /// A header for `bufsize` cells of `elsize` bytes each.
    pub fn new(elsize: usize, bufsize: usize) -> (h: VectorHeader)
        ensures
            h.spec_elsize() == elsize,
            h.spec_bufsize() == bufsize,
    {
        VectorHeader { elsize, bufsize }
    }

    /// Bytes per cell, version included.
    pub closed spec fn spec_elsize(&self) -> usize {
        self.elsize
    }

    /// Number of cells.
    pub closed spec fn spec_bufsize(&self) -> usize {
        self.bufsize
    }

    /// The 16 bytes of the header as laid out in memory: cell size and
    /// number of cells as 8-byte words, least significant byte first.
    pub open spec fn spec_bytes(&self) -> Seq<u8> {
        word_bytes(self.spec_elsize() as u64) + word_bytes(self.spec_bufsize() as u64)
    }

    /// Reads a header from the 16 bytes in front of a vector.
    pub fn from_ptr(bytes: &[u8; 16]) -> (h: VectorHeader)
        ensures
            h.spec_elsize() == le_word(bytes@, 0) as usize,
            h.spec_bufsize() == le_word(bytes@, 8) as usize,
    {
        let raw: &[u8] = bytes.as_slice();
        VectorHeader { elsize: #[verifier::truncate] (read_word(raw, 0) as usize), bufsize: #[verifier::truncate] (read_word(raw, 8) as usize) }
    }

    /// The 16 bytes of the header.
    pub fn to_bytes(&self) -> (out: Vec<u8>)
        ensures
            out@ == self.spec_bytes(),
            out@.len() == 16,
    {
        let mut out: Vec<u8> = Vec::new();
        push_word(&mut out, self.elsize as u64);
        push_word(&mut out, self.bufsize as u64);
        assert(out@ =~= self.spec_bytes());
        out
    }

    /// Fills the header in place for `len` cells of `elsize` bytes.
    pub fn init(&mut self, elsize: usize, len: usize)
        ensures
            final(self).spec_elsize() == elsize,
            final(self).spec_bufsize() == len,
    {
        self.bufsize = len;
        self.elsize = elsize;
    }

    /// Bytes per cell, version included.
    pub fn elsize(&self) -> (r: usize)
        ensures
            r == self.spec_elsize(),
    {
        self.elsize
    }

    /// Number of cells.
    pub fn bufsize(&self) -> (r: usize)
        ensures
            r == self.spec_bufsize(),
    {
        self.bufsize
    }
}

/// A header read back from its own bytes has the same fields.
pub proof fn lemma_vector_header_round_trip(h: VectorHeader)
    ensures
        h.spec_bytes().len() == 16,
        le_word(h.spec_bytes(), 0) as usize == h.spec_elsize(),
        le_word(h.spec_bytes(), 8) as usize == h.spec_bufsize(),
{
    let b = h.spec_bytes();
    let e = word_bytes(h.spec_elsize() as u64);
    let n = word_bytes(h.spec_bufsize() as u64);
    lemma_word_round_trip(h.spec_elsize() as u64);
    lemma_word_round_trip(h.spec_bufsize() as u64);
    assert forall|i: int| 0 <= i < 8 implies b[i] == e[i] && b[8 + i] == n[i] by {}
    assert(le_word(b, 0) == le_word(e, 0));
    assert(le_word(b, 8) == le_word(n, 0));
}

/// A vector of seqlock cells. One writer per position at a time.
pub struct SeqlockVector<T> {
    header: VectorHeader,
    buffer: Vec<Seqlock<T>>,
}

impl<T: Copy> SeqlockVector<T> {
    /// The header.
    pub closed spec fn head(&self) -> VectorHeader {
        self.header
    }

    /// The cells behind the header; the first `spec_len()` of them are the
    /// vector's.
    pub closed spec fn cells(&self) -> Seq<Seqlock<T>> {
        self.buffer@
    }

    /// Number of cells the vector addresses.
    pub open spec fn spec_len(&self) -> nat {
        self.head().spec_bufsize() as nat
    }

    /// The header addresses no more cells than there are.
    pub open spec fn wf(&self) -> bool {
        self.spec_len() <= self.cells().len()
    }

    /// Every addressed cell is published.
    pub open spec fn quiescent(&self) -> bool {
        forall|i: int| 0 <= i < self.spec_len() ==> !(#[trigger] self.cells()[i]).is_poisoned()
    }

    /// Bytes of a vector of `len` cells.
    pub fn size_of(len: usize) -> (r: usize)
        requires
            vector_size(vstd::layout::size_of::<T>(), len as nat) <= usize::MAX,
        ensures
            r == vector_size(vstd::layout::size_of::<T>(), len as nat),
    {
        vstd::layout::layout_for_type_is_valid::<T>();
        vector_bytes(core::mem::size_of::<T>(), len)
    }

    /// A fresh vector of `len` cells, each at version zero and holding
    /// `init`.
    pub fn new(len: usize, init: T) -> (v: SeqlockVector<T>)
        ensures
            v.wf(),
            v.quiescent(),
            v.spec_len() == len,
            v.cells().len() == len,
            v.head().spec_elsize() == cell_size(vstd::layout::size_of::<T>()),
            forall|i: int|
                0 <= i < len ==> (#[trigger] v.cells()[i]).spec_version() == 0 && v.cells()[i].payload()
                    == init,
    {
        let mut cells: Vec<Seqlock<T>> = Vec::new();
        let mut i: usize = 0;
        while i < len
            invariant
                i <= len,
                cells@.len() == i,
                forall|q: int|
                    0 <= q < i ==> (#[trigger] cells@[q]).spec_version() == 0 && cells@[q].payload()
                        == init,
            decreases len - i,
        {
            cells.push(Seqlock::new(init));
            i = i + 1;
        }
        Self::from_uninitialized_ptr(cells)
    }

    /// Lays a vector over `cells`, which stay as they are.
    pub fn from_uninitialized_ptr(cells: Vec<Seqlock<T>>) -> (v: SeqlockVector<T>)
        ensures
            v.wf(),
            v.cells() == cells@,
            v.spec_len() == cells@.len(),
            v.head().spec_elsize() == cell_size(vstd::layout::size_of::<T>()),
    {
        vstd::layout::layout_for_type_is_valid::<T>();
        let elsize: usize = cell_bytes(core::mem::size_of::<T>());
        let bufsize: usize = cells.len();
        SeqlockVector { header: VectorHeader { elsize, bufsize }, buffer: cells }
    }

    /// Takes over a vector that is already laid out: `header` as found in
    /// front of `cells`.
    pub fn from_initialized_ptr(header: VectorHeader, cells: Vec<Seqlock<T>>) -> (v: SeqlockVector<T>)
        requires
            header.spec_bufsize() <= cells@.len(),
        ensures
            v.wf(),
            v.head() == header,
            v.cells() == cells@,
    {
        SeqlockVector { header, buffer: cells }
    }

    /// Create-or-open over the cells of a region. Without a header the
    /// region is new and is laid out for its `len` cells; with the header
    /// found in front of it, the vector is taken over and cut to `len`
    /// cells, unless it has fewer.
    pub fn shared(existing: Option<VectorHeader>, cells: Vec<Seqlock<T>>, len: usize) -> (r: Result<
        SeqlockVector<T>,
        &'static str,
    >)
        requires
            existing.is_none() ==> cells@.len() == len,
            existing.is_some() ==> existing.unwrap().spec_bufsize() <= cells@.len(),
        ensures
            r.is_ok() <==> (existing.is_some() ==> existing.unwrap().spec_bufsize() >= len),
            r.is_err() ==> (r->Err_0)@ == "Existing shmem too small"@,
            r.is_ok() ==> r.unwrap().wf() && r.unwrap().spec_len() == len && r.unwrap().cells()
                == cells@,
            r.is_ok() && existing.is_none() ==> r.unwrap().head().spec_elsize() == cell_size(
                vstd::layout::size_of::<T>(),
            ),
            r.is_ok() && existing.is_some() ==> r.unwrap().head().spec_elsize()
                == existing.unwrap().spec_elsize(),
    {
        match existing {
            None => Ok(Self::from_uninitialized_ptr(cells)),
            Some(header) => {
                let mut v = Self::from_initialized_ptr(header, cells);
                if v.header.bufsize < len {
                    Err("Existing shmem too small")
                } else {
                    v.header.bufsize = len;
                    Ok(v)
                }
            },
        }
    }

    /// Single-writer write of `item` at `pos`.
    pub fn write(&mut self, pos: usize, item: &T)
        requires
            old(self).wf(),
            pos < old(self).spec_len(),
        ensures
            final(self).head() == old(self).head(),
            final(self).cells().len() == old(self).cells().len(),
            final(self).cells()[pos as int].payload() == *item,
            final(self).cells()[pos as int].spec_version() == old(self).cells()[pos as int].spec_version().wrapping_add(
                2,
            ),
            forall|i: int|
                0 <= i < old(self).cells().len() && i != pos ==> final(self).cells()[i] == old(
                    self,
                ).cells()[i],
    {
        self.buffer[pos].write(item);
    }

    /// Multi-writer write of `item` at `pos`.
    pub fn write_multi(&mut self, pos: usize, item: &T)
        requires
            old(self).wf(),
            pos < old(self).spec_len(),
            !old(self).cells()[pos as int].is_poisoned(),
        ensures
            final(self).head() == old(self).head(),
            final(self).cells().len() == old(self).cells().len(),
            final(self).cells()[pos as int].payload() == *item,
            final(self).cells()[pos as int].spec_version() == old(self).cells()[pos as int].spec_version().wrapping_add(
                2,
            ),
            forall|i: int|
                0 <= i < old(self).cells().len() && i != pos ==> final(self).cells()[i] == old(
                    self,
                ).cells()[i],
    {
        self.buffer[pos].write_multi(item);
    }

    /// Latest value at `pos`, into `result`.
    pub fn read(&self, pos: usize, result: &mut T)
        requires
            self.wf(),
            pos < self.spec_len(),
            !self.cells()[pos as int].is_poisoned(),
        ensures
            *final(result) == self.cells()[pos as int].payload(),
    {
        self.buffer[pos].read_no_ver(result);
    }

    /// Latest value at `pos`.
    pub fn read_copy(&self, pos: usize) -> (out: T)
        requires
            self.wf(),
            pos < self.spec_len(),
            !self.cells()[pos as int].is_poisoned(),
        ensures
            out == self.cells()[pos as int].payload(),
    {
        self.buffer[pos].read_copy()
    }

    /// The version of the cell at `pos`.
    pub fn version_of(&self, pos: usize) -> (r: usize)
        requires
            self.wf(),
            pos < self.spec_len(),
        ensures
            r == self.cells()[pos as int].spec_version(),
    {
        self.buffer[pos].version()
    }

    /// Number of cells.
    pub fn len(&self) -> (r: usize)
        ensures
            r == self.spec_len(),
    {
        self.header.bufsize
    }

    /// An iterator over the latest values, in index order.
    pub fn iter(&self) -> (it: VectorIterator<'_, T>)
        ensures
            it.vector == self,
            it.next_id == 0,
    {
        VectorIterator { vector: self, next_id: 0 }
    }
}

/// Walks a vector in index order; each step is a fresh latest-value read.
pub struct VectorIterator<'a, T> {
    pub vector: &'a SeqlockVector<T>,
    pub next_id: usize,
}

impl<'a, T: Copy> VectorIterator<'a, T> {
    /// The value at the next index, or `None` past the end.
    pub fn next(&mut self) -> (r: Option<T>)
        requires
            old(self).vector.wf(),
            old(self).vector.quiescent(),
        ensures
            final(self).vector == old(self).vector,
            old(self).next_id >= old(self).vector.spec_len() ==> r.is_none() && final(self).next_id
                == old(self).next_id,
            old(self).next_id < old(self).vector.spec_len() ==> r == Some(
                old(self).vector.cells()[old(self).next_id as int].payload(),
            ) && final(self).next_id == old(self).next_id + 1,
    {
        if self.next_id >= self.vector.len() {
            None
        } else {
            let out: T = self.vector.read_copy(self.next_id);
            self.next_id = self.next_id.wrapping_add(1);
            Some(out)
        }
    }

    /// All remaining values, in index order.
    pub fn collect(&mut self) -> (out: Vec<T>)
        requires
            old(self).vector.wf(),
            old(self).vector.quiescent(),
        ensures
            final(self).vector == old(self).vector,
            old(self).next_id <= old(self).vector.spec_len() ==> {
                &&& out@.len() == old(self).vector.spec_len() - old(self).next_id
                &&& forall|i: int|
                    0 <= i < out@.len() ==> #[trigger] out@[i] == old(self).vector.cells()[old(
                        self,
                    ).next_id + i].payload()
            },
            old(self).next_id <= old(self).vector.spec_len() ==> final(self).next_id == old(
                self,
            ).vector.spec_len(),
            old(self).next_id > old(self).vector.spec_len() ==> out@.len() == 0 && final(self).next_id == old(self).next_id,
    {
        let mut out: Vec<T> = Vec::new();
        let ghost first: usize = self.next_id;
        loop
            invariant
                self.vector == old(self).vector,
                self.vector.wf(),
                self.vector.quiescent(),
                first == old(self).next_id,
                first <= self.vector.spec_len() ==> first <= self.next_id <= self.vector.spec_len()
                    && out@.len() == self.next_id - first,
                first > self.vector.spec_len() ==> out@.len() == 0 && self.next_id == first,
                forall|i: int|
                    0 <= i < out@.len() ==> #[trigger] out@[i] == self.vector.cells()[first
                        + i].payload(),
            ensures
                self.next_id >= self.vector.spec_len(),
                first <= self.vector.spec_len() ==> self.next_id == self.vector.spec_len(),
            decreases
                    (if self.next_id < self.vector.spec_len() {
                        self.vector.spec_len() - self.next_id + 1
                    } else {
                        0
                    }),
        {
            match self.next() {
                Some(value) => {
                    out.push(value);
                },
                None => {
                    break ;
                },
            }
        }
        out
    }
}

} // verus!
