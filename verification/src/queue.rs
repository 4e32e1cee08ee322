//! The ring queue: a power-of-two array of seqlock cells behind a header
//! that carries the publish count, with producer and consumer cursors.
use vstd::prelude::*;
use vstd::arithmetic::power::pow;
use vstd::arithmetic::power2::is_pow2;
use vstd::arithmetic::power2::is_pow2_equiv;
use vstd::arithmetic::power2::is_pow2_exists;
use vstd::arithmetic::power2::pow2;
use vstd::arithmetic::power2::lemma2_to64;
use vstd::arithmetic::power2::lemma2_to64_rest;
use vstd::arithmetic::power2::lemma_pow2_strictly_increases;
use vstd::bits::lemma_usize_low_bits_mask_is_mod;
use vstd::bits::low_bits_mask;
use crate::error::QueueError;
use crate::error::ReadError;
use crate::layout::cell_bytes;
use crate::layout::cell_size;
use crate::layout::le_word;
use crate::layout::lemma_word_round_trip;
use crate::layout::push_word;
use crate::layout::read_word;
use crate::layout::word_bytes;
use crate::layout::is_power_of_two;
use crate::layout::lemma_next_pow2;
use crate::layout::next_pow2;
use crate::layout::next_power_of_two;
use crate::layout::ring_bytes;
use crate::layout::ring_size;
use crate::model::consistent;
use crate::model::changes;
use crate::model::is_stop;
use crate::model::expected_at;
use crate::model::slot_at;
use crate::model::lemma_advanced_index;
use crate::model::lemma_cursor_index;
use crate::model::CursorView;
use crate::model::RingView;
use crate::seqlock::read_outcome;
use crate::seqlock::Seqlock;

verus! {

/// How producers reserve a slot.
#[derive(Debug, Clone, Copy, PartialEq, Eq, Structural)]
pub enum QueueType {
    Unknown,
    /// Multiple producers, multiple consumers.
    MPMC,
    /// Single producer, multiple consumers.
    SPMC,
}

/// The ring header: queue type, initialized flag, cell size, slot mask and
/// publish count, with reserved bytes up to a cache line.
#[derive(Debug)]
pub struct QueueHeader {
    queue_type: QueueType,
    is_initialized: u8,
    _pad1: [u8; 6],
    elsize: usize,
    mask: usize,
    count: usize,
    _pad2: [u8; 32],
}

/// The byte that stands for a queue type in memory.
pub open spec fn type_byte(t: QueueType) -> u8 {
    match t {
        QueueType::Unknown => 0,
        QueueType::MPMC => 1,
        QueueType::SPMC => 2,
    }
}

/// The queue type a byte in memory stands for.
pub open spec fn byte_type(b: u8) -> QueueType {
    if b == 1 {
        QueueType::MPMC
    } else if b == 2 {
        QueueType::SPMC
    } else {
        QueueType::Unknown
    }
}

/// A header read back from its own bytes has the same fields.
pub proof fn lemma_header_round_trip(h: QueueHeader)
    ensures
        h.spec_bytes().len() == 64,
        byte_type(h.spec_bytes()[0]) == h.spec_type(),
        h.spec_bytes()[1] == h.spec_flag(),
        le_word(h.spec_bytes(), 8) as usize == h.spec_elsize(),
        le_word(h.spec_bytes(), 16) as usize == h.spec_mask(),
        le_word(h.spec_bytes(), 24) as usize == h.spec_count(),
        forall|i: int| 2 <= i < 8 || 32 <= i < 64 ==> #[trigger] h.spec_bytes()[i] == 0,
{
    let b = h.spec_bytes();
    let e = word_bytes(h.spec_elsize() as u64);
    let m = word_bytes(h.spec_mask() as u64);
    let c = word_bytes(h.spec_count() as u64);
    lemma_word_round_trip(h.spec_elsize() as u64);
    lemma_word_round_trip(h.spec_mask() as u64);
    lemma_word_round_trip(h.spec_count() as u64);
    assert forall|i: int| 0 <= i < 8 implies b[8 + i] == e[i] && b[16 + i] == m[i] && b[24 + i]
        == c[i] by {}
    assert(le_word(b, 8) == le_word(e, 0));
    assert(le_word(b, 16) == le_word(m, 0));
    assert(le_word(b, 24) == le_word(c, 0));
}

/// With a mask one below a power of two, masking is the remainder.
pub proof fn lemma_mask_is_mod(x: usize, mask: usize)
    requires
        mask < usize::MAX,
        is_pow2(mask as int + 1),
    ensures
        x & mask == x as int % (mask as int + 1),
{
    let n: int = mask as int + 1;
    is_pow2_equiv(n);
    assert(is_pow2_exists(n));
    let i: nat = choose|i: nat| pow(2, i) == n;
    lemma2_to64();
    lemma2_to64_rest();
    if i >= usize::BITS {
        if i > usize::BITS {
            lemma_pow2_strictly_increases(usize::BITS as nat, i);
        }
        assert(false);
    }
    assert(pow2(i) == n);
    assert(low_bits_mask(i) == mask);
    lemma_usize_low_bits_mask_is_mod(x, i);
}

impl QueueHeader {
    /// How producers reserve a slot.
    pub closed spec fn spec_type(&self) -> QueueType {
        self.queue_type
    }

    /// The byte of the initialized flag.
    pub closed spec fn spec_flag(&self) -> u8 {
        self.is_initialized
    }

    /// The header is valid once the flag byte is one.
    pub open spec fn spec_initialized(&self) -> bool {
        self.spec_flag() == 1
    }

    /// Bytes per cell, version included.
    pub closed spec fn spec_elsize(&self) -> usize {
        self.elsize
    }

    /// The slot mask: one below the number of slots.
    pub closed spec fn spec_mask(&self) -> usize {
        self.mask
    }

    /// The publish count.
    pub closed spec fn spec_count(&self) -> usize {
        self.count
    }

    /// The header is that of a ring: the mask is one below a power of two.
    pub open spec fn wf(&self) -> bool {
        &&& self.spec_mask() < usize::MAX
        &&& is_pow2(self.spec_mask() as int + 1)
    }

    /// The 64 bytes of the header as laid out in memory: type, flag, six
    /// reserved bytes, then cell size, mask and count as 8-byte words, least
    /// significant byte first, then 32 reserved bytes.
    pub open spec fn spec_bytes(&self) -> Seq<u8> {
        seq![type_byte(self.spec_type()), self.spec_flag()] + Seq::new(6, |i: int| 0u8)
            + word_bytes(self.spec_elsize() as u64) + word_bytes(self.spec_mask() as u64)
            + word_bytes(self.spec_count() as u64) + Seq::new(32, |i: int| 0u8)
    }

    /// Reads a header from the 64 bytes in front of a ring. A type byte
    /// other than one or two reads as `Unknown`.
    pub fn from_ptr(bytes: &[u8; 64]) -> (h: QueueHeader)
        ensures
            h.spec_type() == byte_type(bytes@[0]),
            h.spec_flag() == bytes@[1],
            h.spec_elsize() == le_word(bytes@, 8) as usize,
            h.spec_mask() == le_word(bytes@, 16) as usize,
            h.spec_count() == le_word(bytes@, 24) as usize,
    {
        let raw: &[u8] = bytes.as_slice();
        let queue_type = if bytes[0] == 1 {
            QueueType::MPMC
        } else if bytes[0] == 2 {
            QueueType::SPMC
        } else {
            QueueType::Unknown
        };
        QueueHeader {
            queue_type,
            is_initialized: bytes[1],
            _pad1: [0u8; 6],
            elsize: #[verifier::truncate] (read_word(raw, 8) as usize),
            mask: #[verifier::truncate] (read_word(raw, 16) as usize),
            count: #[verifier::truncate] (read_word(raw, 24) as usize),
            _pad2: [0u8; 32],
        }
    }

    /// The 64 bytes of the header.
    pub fn to_bytes(&self) -> (out: Vec<u8>)
        ensures
            out@ == self.spec_bytes(),
            out@.len() == 64,
    {
        let mut out: Vec<u8> = Vec::new();
        out.push(
            match self.queue_type {
                QueueType::Unknown => 0u8,
                QueueType::MPMC => 1u8,
                QueueType::SPMC => 2u8,
            },
        );
        out.push(self.is_initialized);
        let mut i: usize = 0;
        while i < 6
            invariant
                i <= 6,
                out@ == seq![type_byte(self.spec_type()), self.spec_flag()] + Seq::new(
                    i as nat,
                    |i: int| 0u8,
                ),
            decreases 6 - i,
        {
            out.push(0u8);
            i = i + 1;
            assert(out@ =~= seq![type_byte(self.spec_type()), self.spec_flag()] + Seq::new(
                i as nat,
                |i: int| 0u8,
            ));
        }
        push_word(&mut out, self.elsize as u64);
        push_word(&mut out, self.mask as u64);
        push_word(&mut out, self.count as u64);
        let ghost front = out@;
        let mut j: usize = 0;
        while j < 32
            invariant
                j <= 32,
                out@ == front + Seq::new(j as nat, |i: int| 0u8),
            decreases 32 - j,
        {
            out.push(0u8);
            j = j + 1;
            assert(out@ =~= front + Seq::new(j as nat, |i: int| 0u8));
        }
        out
    }

    /// Fills the header in place for a ring of `len` slots of `elsize`
    /// bytes: flag set, count at zero.
    pub fn init(&mut self, queue_type: QueueType, elsize: usize, len: usize)
        requires
            is_pow2(len as int),
        ensures
            final(self).wf(),
            final(self).spec_initialized(),
            final(self).spec_type() == queue_type,
            final(self).spec_elsize() == elsize,
            final(self).spec_mask() == len - 1,
            final(self).spec_count() == 0,
    {
        proof {
            reveal(is_pow2);
        }
        self.queue_type = queue_type;
        self.mask = len - 1;
        self.elsize = elsize;
        self.is_initialized = 1;
        self.count = 0;
    }

    /// Bytes of the cell array.
    pub fn size_of(&self) -> (r: usize)
        requires
            (self.spec_mask() + 1) * self.spec_elsize() <= usize::MAX,
            self.spec_mask() < usize::MAX,
        ensures
            r == (self.spec_mask() + 1) * self.spec_elsize(),
    {
        (self.mask + 1) * self.elsize
    }

    /// How producers reserve a slot in this ring.
    pub fn queue_type(&self) -> (r: QueueType)
        ensures
            r == self.spec_type(),
    {
        self.queue_type
    }

    /// Whether the mask is all ones, so that no slot count fits a word.
    pub fn mask_is_full(&self) -> (r: bool)
        ensures
            r == (self.spec_mask() == usize::MAX),
    {
        self.mask == usize::MAX
    }

    /// Number of slots.
    pub fn len(&self) -> (r: usize)
        requires
            self.spec_mask() < usize::MAX,
        ensures
            r == self.spec_mask() + 1,
    {
        self.mask + 1
    }

    /// Whether the ring has no slots, which a ring never has.
    pub fn is_empty(&self) -> (r: bool)
        requires
            self.spec_mask() < usize::MAX,
        ensures
            !r,
    {
        self.len() == 0
    }

    /// Whether the header carries the initialized flag.
    pub fn is_initialized(&self) -> (r: bool)
        ensures
            r == self.spec_initialized(),
    {
        self.is_initialized == 1
    }

    /// Bytes per cell, version included.
    pub fn elsize(&self) -> (r: usize)
        ensures
            r == self.spec_elsize(),
    {
        self.elsize
    }
}

/// The exponent of the largest power of two that divides `v`.
pub fn power_of_two(v: usize) -> (n: usize)
    requires
        v != 0,
    ensures
        v as int % pow2(n as nat) as int == 0,
        (v as int / pow2(n as nat) as int) % 2 == 1,
{
    let mut w: usize = v;
    let mut n: usize = 0;
    proof {
        lemma2_to64();
    }
    while w % 2 == 0
        invariant
            w >= 1,
            n <= v - w,
            w * pow2(n as nat) == v,
        decreases w,
    {
        proof {
            vstd::arithmetic::power2::lemma_pow2_unfold((n + 1) as nat);
            assert((w / 2) * (2 * pow2(n as nat)) == w * pow2(n as nat)) by (nonlinear_arith)
                requires
                    w % 2 == 0,
            ;
        }
        w = w / 2;
        n = n + 1;
    }
    proof {
        vstd::arithmetic::power2::lemma_pow2_pos(n as nat);
        vstd::arithmetic::div_mod::lemma_fundamental_div_mod_converse(
            v as int,
            pow2(n as nat) as int,
            w as int,
            0,
        );
    }
    n
}

/// A ring of seqlock cells with its header.
pub struct Queue<T> {
    pub header: QueueHeader,
    buffer: Vec<Seqlock<T>>,
}

impl<T: Copy> View for Queue<T> {
    type V = RingView<T>;

    open spec fn view(&self) -> RingView<T> {
        RingView {
            count: self.head().spec_count(),
            versions: Seq::new(self.cells().len(), |i: int| self.cells()[i].spec_version()),
            payloads: Seq::new(self.cells().len(), |i: int| self.cells()[i].payload()),
        }
    }
}

impl<T: Copy> Queue<T> {
    /// The header.
    pub closed spec fn head(&self) -> QueueHeader {
        self.header
    }

    /// The cells, slot by slot.
    pub closed spec fn cells(&self) -> Seq<Seqlock<T>> {
        self.buffer@
    }

    /// The header is initialized and describes the cell array.
    pub open spec fn wf(&self) -> bool {
        &&& self.head().wf()
        &&& self.head().spec_initialized()
        &&& self.cells().len() == self.head().spec_mask() + 1
    }

    /// Bytes of a ring of `len` slots, rounded up to a power of two.
    pub fn size_of(len: usize) -> (r: usize)
        requires
            ring_size(vstd::layout::size_of::<T>(), len as nat) <= usize::MAX,
        ensures
            r == ring_size(vstd::layout::size_of::<T>(), len as nat),
    {
        ring_bytes(core::mem::size_of::<T>(), len)
    }

    /// The publish count.
    pub fn count(&self) -> (r: usize)
        ensures
            r == self@.count,
    {
        self.header.count
    }

    /// Number of slots.
    pub fn len(&self) -> (r: usize)
        requires
            self.wf(),
        ensures
            r == self@.len(),
    {
        self.header.mask + 1
    }

    /// Reserves the next publish: hands out the count and moves it on by
    /// one, wrapping at the machine word.
    pub fn next_count(&mut self) -> (r: usize)
        requires
            old(self).head().spec_type() != QueueType::Unknown,
        ensures
            r == old(self)@.count,
            final(self)@ == (RingView { count: r.wrapping_add(1), ..old(self)@ }),
            final(self).head().spec_type() == old(self).head().spec_type(),
            final(self).head().spec_initialized() == old(self).head().spec_initialized(),
            final(self).head().spec_elsize() == old(self).head().spec_elsize(),
            final(self).head().spec_mask() == old(self).head().spec_mask(),
            final(self).cells() == old(self).cells(),
    {
        let c: usize = self.header.count;
        self.header.count = c.wrapping_add(1);
        c
    }

    /// The slot the next publish goes to.
    pub fn cur_pos(&self) -> (r: usize)
        requires
            self.wf(),
        ensures
            r == self@.slot(),
    {
        proof {
            lemma_mask_is_mod(self.header.count, self.header.mask);
        }
        self.header.count & self.header.mask
    }

    /// The version a consumer created now expects.
    pub fn version(&self) -> (r: usize)
        requires
            self.wf(),
        ensures
            r == self@.lap_version(),
    {
        let lap: usize = self.header.count / (self.header.mask + 1);
        lap.wrapping_add(lap).wrapping_add(2)
    }

    /// The version of the cell at `pos`.
    pub fn version_of(&self, pos: usize) -> (r: usize)
        requires
            pos < self@.len(),
        ensures
            r == self@.versions[pos as int],
    {
        self.buffer[pos].version()
    }

    /// Publishes `item` and returns the count it was published at.
    pub fn produce(&mut self, item: &T) -> (r: usize)
        requires
            old(self).wf(),
            old(self).head().spec_type() != QueueType::Unknown,
        ensures
            r == old(self)@.count,
            final(self)@ == old(self)@.published(*item),
            final(self).wf(),
            final(self).head().spec_type() == old(self).head().spec_type(),
            final(self).head().spec_elsize() == old(self).head().spec_elsize(),
            final(self).head().spec_mask() == old(self).head().spec_mask(),
    {
        let p: usize = self.next_count();
        let pos: usize = p & self.header.mask;
        proof {
            lemma_mask_is_mod(p, self.header.mask);
        }
        self.buffer[pos].write(item);
        proof {
            assert(final(self)@.versions =~= old(self)@.published(*item).versions);
            assert(final(self)@.payloads =~= old(self)@.published(*item).payloads);
        }
        p
    }

    /// Versioned read of the cell at `ri`.
    pub fn consume(&self, el: &mut T, ri: usize, ri_ver: usize) -> (r: Result<(), ReadError>)
        requires
            ri < self@.len(),
        ensures
            r == read_outcome(self@.versions[ri as int], ri_ver),
            r == Err::<(), ReadError>(ReadError::Empty) ==> *final(el) == *old(el),
            r != Err::<(), ReadError>(ReadError::Empty) ==> *final(el) == self@.payloads[ri as int],
    {
        self.buffer[ri].read(el, ri_ver)
    }

    /// Latest-value read of the published cell at `ri`.
    pub fn read(&self, el: &mut T, ri: usize)
        requires
            ri < self@.len(),
            self@.versions[ri as int] % 2 == 0,
        ensures
            *final(el) == self@.payloads[ri as int],
    {
        self.buffer[ri].read_no_ver(el)
    }

    /// Checks the ring as a debugger would: whether no cell is poisoned and
    /// the versions, in slot order, change at most once.
    pub fn verify(&self) -> (ok: bool)
        requires
            self.wf(),
        ensures
            ok == consistent(self@.versions),
    {
        let n: usize = self.buffer.len();
        let mut prev_v: usize = self.buffer[0].version();
        if prev_v % 2 == 1 {
            assert(self@.versions[0] % 2 == 1);
            return false;
        }
        let mut n_changes: usize = 0;
        let mut i: usize = 1;
        while i < n
            invariant
                1 <= i <= n,
                n == self@.versions.len(),
                n == self.cells().len(),
                prev_v == self@.versions[i - 1],
                n_changes == changes(self@.versions, i as int),
                n_changes < i,
                forall|j: int| 0 <= j < i ==> #[trigger] self@.versions[j] % 2 == 0,
            decreases n - i,
        {
            let v: usize = self.buffer[i].version();
            if v % 2 == 1 {
                assert(self@.versions[i as int] % 2 == 1);
                return false;
            }
            if v != prev_v {
                n_changes = n_changes + 1;
                prev_v = v;
            }
            i = i + 1;
        }
        n_changes <= 1
    }

    /// Whether the ring keeps the lap invariant: every cell has been written
    /// exactly as often as the publish count says.
    pub fn keeps_lap_invariant(&self) -> (ok: bool)
        requires
            self.wf(),
        ensures
            ok == self@.in_step(),
    {
        let n: usize = self.buffer.len();
        let lap: usize = self.header.count / n;
        let slot: usize = self.header.count % n;
        if lap > (usize::MAX - 8) / 2 {
            return false;
        }
        let mut i: usize = 0;
        while i < n
            invariant
                self.wf(),
                i <= n,
                n == self@.len(),
                n == self.cells().len(),
                lap == self@.lap(),
                slot == self@.slot(),
                2 * lap + 8 <= usize::MAX,
                forall|q: int|
                    0 <= q < i ==> #[trigger] self@.versions[q] == 2 * self@.lap() + (if q
                        < self@.slot() {
                        2int
                    } else {
                        0int
                    }),
            decreases n - i,
        {
            let want: usize = if i < slot {
                2 * lap + 2
            } else {
                2 * lap
            };
            if self.buffer[i].version() != want {
                assert(self@.versions[i as int] != 2 * self@.lap() + (if (i as int)
                    < self@.slot() {
                    2int
                } else {
                    0int
                }));
                return false;
            }
            i = i + 1;
        }
        true
    }

    /// The first publish of a producer. A single producer that finds the
    /// cell at the current slot poisoned repairs that cell in place and
    /// returns the slot; in every other case this is `produce`.
    pub fn produce_first(&mut self, item: &T) -> (r: usize)
        requires
            old(self).wf(),
            old(self).head().spec_type() != QueueType::Unknown,
        ensures
            final(self).wf(),
            final(self).head().spec_type() == old(self).head().spec_type(),
            final(self).head().spec_elsize() == old(self).head().spec_elsize(),
            final(self).head().spec_mask() == old(self).head().spec_mask(),
            old(self).repairs_first() ==> r == old(self)@.slot() && final(self)@ == old(
                self,
            )@.recovered(*item),
            !old(self).repairs_first() ==> r == old(self)@.count && final(self)@ == old(
                self,
            )@.published(*item),
    {
        match self.header.queue_type {
            QueueType::SPMC => {
                let p: usize = self.cur_pos();
                if self.buffer[p].version() % 2 == 1 {
                    self.buffer[p].write_unpoison(item);
                    proof {
                        assert(final(self)@.versions =~= old(self)@.recovered(*item).versions);
                        assert(final(self)@.payloads =~= old(self)@.recovered(*item).payloads);
                    }
                    p
                } else {
                    self.produce(item)
                }
            },
            _ => self.produce(item),
        }
    }

    /// Whether a first publish finds a cell to repair: a single-producer
    /// ring whose cell at the current slot is poisoned.
    pub open spec fn repairs_first(&self) -> bool {
        &&& self.head().spec_type() == QueueType::SPMC
        &&& self@.versions[self@.slot()] % 2 == 1
    }

    /// Lays a ring over `cells`, whose versions and payloads stay as they
    /// are: the header is initialized with the count at zero. The number of
    /// cells has to be a power of two.
    pub fn from_uninitialized_ptr(cells: Vec<Seqlock<T>>, queue_type: QueueType) -> (r: Result<
        Queue<T>,
        QueueError,
    >)
        ensures
            r.is_ok() <==> is_pow2(cells@.len() as int),
            r.is_err() ==> r == Err::<Queue<T>, QueueError>(QueueError::LengthNotPowerOfTwo),
            r.is_ok() ==> {
                let q = r.unwrap();
                &&& q.wf()
                &&& q.cells() == cells@
                &&& q@.count == 0
                &&& q.head().spec_type() == queue_type
                &&& q.head().spec_elsize() == cell_size(vstd::layout::size_of::<T>())
            },
    {
        let len: usize = cells.len();
        if !is_power_of_two(len) {
            return Err(QueueError::LengthNotPowerOfTwo);
        }
        vstd::layout::layout_for_type_is_valid::<T>();
        let elsize: usize = cell_bytes(core::mem::size_of::<T>());
        proof {
            reveal(is_pow2);
        }
        let header = QueueHeader {
            queue_type,
            is_initialized: 1,
            _pad1: [0u8; 6],
            elsize,
            mask: len - 1,
            count: 0,
            _pad2: [0u8; 32],
        };
        Ok(Queue { header, buffer: cells })
    }

    /// Takes over a ring that is already laid out: `header` as found in
    /// front of `cells`.
    pub fn from_initialized_ptr(header: QueueHeader, cells: Vec<Seqlock<T>>) -> (r: Result<
        Queue<T>,
        QueueError,
    >)
        requires
            cells@.len() == header.spec_mask() + 1,
        ensures
            r.is_ok() <==> is_pow2(cells@.len() as int) && header.spec_initialized(),
            !is_pow2(cells@.len() as int) ==> r == Err::<Queue<T>, QueueError>(
                QueueError::LengthNotPowerOfTwo,
            ),
            is_pow2(cells@.len() as int) && !header.spec_initialized() ==> r == Err::<
                Queue<T>,
                QueueError,
            >(QueueError::UnInitialized),
            r.is_ok() ==> r.unwrap().wf() && r.unwrap().head() == header && r.unwrap().cells()
                == cells@,
    {
        let len: usize = cells.len();
        if !is_power_of_two(len) {
            return Err(QueueError::LengthNotPowerOfTwo);
        }
        if header.is_initialized != 1 {
            return Err(QueueError::UnInitialized);
        }
        Ok(Queue { header, buffer: cells })
    }

    /// Create-or-open over the cells of a region. Without a header the
    /// region is new and a ring of type `typ` is laid over it; with the
    /// header found in front of it, the ring is taken over as it is.
    pub fn shared(existing: Option<QueueHeader>, cells: Vec<Seqlock<T>>, typ: QueueType) -> (r:
        Result<Queue<T>, QueueError>)
        requires
            existing.is_some() ==> cells@.len() == existing.unwrap().spec_mask() + 1,
        ensures
            r.is_ok() <==> is_pow2(cells@.len() as int) && (existing.is_some()
                ==> existing.unwrap().spec_initialized()),
            !is_pow2(cells@.len() as int) ==> r == Err::<Queue<T>, QueueError>(
                QueueError::LengthNotPowerOfTwo,
            ),
            is_pow2(cells@.len() as int) && r.is_err() ==> r == Err::<Queue<T>, QueueError>(
                QueueError::UnInitialized,
            ),
            r.is_ok() ==> r.unwrap().wf() && r.unwrap().cells() == cells@,
            r.is_ok() && existing.is_some() ==> r.unwrap().head() == existing.unwrap(),
            r.is_ok() && existing.is_none() ==> {
                &&& r.unwrap()@.count == 0
                &&& r.unwrap().head().spec_type() == typ
                &&& r.unwrap().head().spec_elsize() == cell_size(vstd::layout::size_of::<T>())
            },
    {
        match existing {
            None => Self::from_uninitialized_ptr(cells, typ),
            Some(header) => Self::from_initialized_ptr(header, cells),
        }
    }

    /// A fresh ring of `len` slots, rounded up to a power of two, every cell
    /// at version zero and holding `init`.
    pub fn new(len: usize, queue_type: QueueType, init: T) -> (r: Result<Queue<T>, QueueError>)
        requires
            next_pow2(len as nat) <= usize::MAX,
        ensures
            r.is_ok(),
            ({
                let q = r.unwrap();
                &&& q.wf()
                &&& q@.len() == next_pow2(len as nat)
                &&& q@.count == 0
                &&& q.head().spec_type() == queue_type
                &&& q.head().spec_elsize() == cell_size(vstd::layout::size_of::<T>())
                &&& forall|i: int|
                    0 <= i < q@.len() ==> #[trigger] q@.versions[i] == 0 && q@.payloads[i] == init
            }),
    {
        let real_len: usize = next_power_of_two(len);
        let mut cells: Vec<Seqlock<T>> = Vec::new();
        let mut i: usize = 0;
        while i < real_len
            invariant
                i <= real_len,
                cells@.len() == i,
                forall|q: int|
                    0 <= q < i ==> (#[trigger] cells@[q]).spec_version() == 0 && cells@[q].payload()
                        == init,
            decreases real_len - i,
        {
            cells.push(Seqlock::new(init));
            i = i + 1;
        }
        proof {
            lemma_next_pow2(len as nat);
        }
        Self::from_uninitialized_ptr(cells, queue_type)
    }
}

/// A producer cursor: it remembers whether its first publish is still to
/// come, because that one repairs a cell a crashed producer left behind.
#[derive(Debug)]
pub struct Producer {
    pub produced_first: u8,
}

impl<'a, T: Copy> From<&'a Queue<T>> for Producer {
    fn from(queue: &'a Queue<T>) -> (p: Producer) {
        Producer { produced_first: 0 }
    }
}

impl<'a, T: Copy> vstd::std_specs::convert::FromSpecImpl<&'a Queue<T>> for Producer {
    open spec fn obeys_from_spec() -> bool {
        true
    }

    open spec fn from_spec(queue: &'a Queue<T>) -> Producer {
        Producer { produced_first: 0 }
    }
}

impl Producer {
    /// Publishes `msg`: through the repairing path on this cursor's first
    /// publish, through the plain one afterwards.
    pub fn produce<T: Copy>(&mut self, queue: &mut Queue<T>, msg: &T) -> (r: usize)
        requires
            old(queue).wf(),
            old(queue).head().spec_type() != QueueType::Unknown,
        ensures
            final(self).produced_first == (if old(self).produced_first == 0 {
                1u8
            } else {
                old(self).produced_first
            }),
            final(queue).wf(),
            final(queue).head().spec_type() == old(queue).head().spec_type(),
            final(queue).head().spec_elsize() == old(queue).head().spec_elsize(),
            final(queue).head().spec_mask() == old(queue).head().spec_mask(),
            old(self).produced_first == 0 && old(queue).repairs_first() ==> r == old(
                queue,
            )@.slot() && final(queue)@ == old(queue)@.recovered(*msg),
            !(old(self).produced_first == 0 && old(queue).repairs_first()) ==> r == old(
                queue,
            )@.count && final(queue)@ == old(queue)@.published(*msg),
    {
        if self.produced_first == 0 {
            self.produced_first = 1;
            queue.produce_first(msg)
        } else {
            queue.produce(msg)
        }
    }
}

/// A consumer cursor: the slot it reads next and the version it expects
/// there, padded to a cache line.
#[derive(Debug)]
pub struct Consumer {
    pub pos: usize,
    mask: usize,
    pub expected_version: usize,
    is_running: u8,
    _pad: [u8; 7],
    _reserved: [u8; 32],
}

impl View for Consumer {
    type V = CursorView;

    closed spec fn view(&self) -> CursorView {
        CursorView { pos: self.pos, expected_version: self.expected_version }
    }
}

impl Consumer {
    /// The slot mask of the ring this cursor was made for.
    pub closed spec fn spec_mask(&self) -> usize {
        self.mask
    }

    /// The cursor points into a ring of `mask + 1` slots.
    pub open spec fn wf(&self) -> bool {
        &&& self.spec_mask() < usize::MAX
        &&& is_pow2(self.spec_mask() as int + 1)
        &&& self@.pos <= self.spec_mask()
    }

    /// The cursor belongs to a ring of the size of `queue`.
    pub open spec fn attached<T: Copy>(&self, queue: &Queue<T>) -> bool {
        &&& queue.wf()
        &&& self.wf()
        &&& self.spec_mask() == queue.head().spec_mask()
    }

    /// A cursor at the current tail of `queue`.
    pub fn from<T: Copy>(queue: &Queue<T>) -> (c: Consumer)
        requires
            queue.wf(),
        ensures
            c@ == queue@.tail_cursor(),
            c.attached(queue),
    {
        let pos: usize = queue.cur_pos();
        let expected_version: usize = queue.version();
        Consumer {
            pos,
            mask: queue.header.mask,
            expected_version,
            is_running: 1,
            _pad: [0u8; 7],
            _reserved: [0u8; 32],
        }
    }

    /// Puts this cursor at the current tail of `queue`.
    pub fn init_header<T: Copy>(&mut self, queue: &Queue<T>)
        requires
            queue.wf(),
        ensures
            final(self)@ == queue@.tail_cursor(),
            final(self).attached(queue),
    {
        self.pos = queue.cur_pos();
        self.expected_version = queue.version();
        self.mask = queue.header.mask;
    }

    /// Moves one slot on, and one lap on where the slot wraps to zero.
    pub fn update_pos(&mut self)
        requires
            old(self).wf(),
            old(self)@.expected_version + 2 <= usize::MAX,
        ensures
            final(self)@ == old(self)@.advanced((old(self).spec_mask() + 1) as nat),
            final(self).spec_mask() == old(self).spec_mask(),
            final(self).wf(),
    {
        proof {
            lemma_mask_is_mod((self.pos + 1) as usize, self.mask);
            if self.pos < self.mask {
                vstd::arithmetic::div_mod::lemma_fundamental_div_mod_converse(
                    self.pos + 1,
                    self.mask + 1,
                    0,
                    self.pos + 1,
                );
            } else {
                vstd::arithmetic::div_mod::lemma_fundamental_div_mod_converse(
                    self.pos + 1,
                    self.mask + 1,
                    1,
                    0,
                );
            }
        }
        self.pos = (self.pos + 1) & self.mask;
        if self.pos == 0 {
            self.expected_version = self.expected_version + 2;
        }
    }

    /// Recovery that only moves one lap on, wherever the ring is by now.
    pub fn recover_after_error_dumb(&mut self)
        requires
            old(self)@.expected_version + 2 <= usize::MAX,
        ensures
            final(self)@ == (CursorView {
                pos: old(self)@.pos,
                expected_version: (old(self)@.expected_version + 2) as usize,
            }),
            final(self).spec_mask() == old(self).spec_mask(),
    {
        self.expected_version = self.expected_version + 2;
    }

    /// Nonblocking consume: reads the cell at the cursor against the
    /// expected version and moves the cursor on only where a value was
    /// delivered.
    pub fn try_consume<T: Copy>(&mut self, queue: &Queue<T>, el: &mut T) -> (r: Result<
        (),
        ReadError,
    >)
        requires
            old(self).attached(queue),
            old(self)@.expected_version + 2 <= usize::MAX,
        ensures
            r == read_outcome(
                queue@.versions[old(self)@.pos as int],
                old(self)@.expected_version,
            ),
            r.is_ok() ==> final(self)@ == old(self)@.advanced(queue@.len()),
            r.is_err() ==> final(self)@ == old(self)@,
            r == Err::<(), ReadError>(ReadError::Empty) ==> *final(el) == *old(el),
            r != Err::<(), ReadError>(ReadError::Empty) ==> *final(el) == queue@.payloads[old(
                self,
            )@.pos as int],
            final(self).spec_mask() == old(self).spec_mask(),
            final(self).attached(queue),
    {
        match queue.consume(el, self.pos, self.expected_version) {
            Ok(()) => {
                self.update_pos();
                Ok(())
            },
            Err(e) => Err(e),
        }
    }

    /// Skip-ahead recovery: walks on from the cursor until it meets a cell
    /// that is not beyond the version expected there, then moves one lap on.
    pub fn recover_after_error<T: Copy>(&mut self, queue: &Queue<T>)
        requires
            old(self).attached(queue),
            old(self)@.wf(queue@.len()),
            old(self)@.expected_version + 2 <= usize::MAX,
            forall|q: int| 0 <= q < queue@.len() ==> #[trigger] queue@.versions[q] + 3 <= usize::MAX,
        ensures
            final(self).attached(queue),
            final(self)@.wf(queue@.len()),
            is_stop(
                queue@.versions,
                old(self)@.index(queue@.len()),
                final(self)@.index(queue@.len()) - queue@.len(),
            ),
    {
        let ghost n: nat = queue@.len();
        let ghost start: int = self@.index(n);
        proof {
            lemma_cursor_index(self@, n);
        }
        while queue.version_of(self.pos) > self.expected_version
            invariant
                self.attached(queue),
                self@.wf(n),
                n == queue@.len(),
                n == queue@.versions.len(),
                self@.expected_version + 3 <= usize::MAX,
                0 <= start <= self@.index(n),
                forall|q: int| 0 <= q < n ==> #[trigger] queue@.versions[q] + 3 <= usize::MAX,
                forall|j: int|
                    start <= j < self@.index(n) ==> queue@.versions[slot_at(j, n)]
                        > #[trigger] expected_at(j, n),
            decreases (usize::MAX / 2) * n - self@.index(n),
        {
            proof {
                lemma_cursor_index(self@, n);
                lemma_advanced_index(self@, n);
                lemma_index_bound(self@.advanced(n), n);
                assert(queue@.versions[self@.pos as int] + 3 <= usize::MAX);
            }
            self.update_pos();
        }
        proof {
            lemma_cursor_index(self@, n);
            lemma_index_lap(self@, n);
        }
        self.expected_version = self.expected_version + 2;
    }

    /// One round of the blocking consume: delivers the value at the cursor
    /// if it is there, resynchronizes the cursor by skip-ahead recovery if
    /// it was lapped, and says whether a value was delivered. Where it says
    /// no, the caller waits for a producer and calls again.
    pub fn consume<T: Copy>(&mut self, queue: &Queue<T>, el: &mut T) -> (delivered: bool)
        requires
            old(self).attached(queue),
            old(self)@.wf(queue@.len()),
            old(self)@.expected_version + 2 <= usize::MAX,
            queue@.versions[old(self)@.pos as int] > old(self)@.expected_version ==> forall|q: int|
                0 <= q < queue@.len() ==> #[trigger] queue@.versions[q] + 3 <= usize::MAX,
        ensures
            final(self).attached(queue),
            final(self)@.wf(queue@.len()),
            delivered == read_outcome(
                queue@.versions[old(self)@.pos as int],
                old(self)@.expected_version,
            ).is_ok(),
            delivered ==> final(self)@ == old(self)@.advanced(queue@.len()),
            queue@.versions[old(self)@.pos as int] < old(self)@.expected_version ==> final(self)@
                == old(self)@ && *final(el) == *old(el),
            queue@.versions[old(self)@.pos as int] >= old(self)@.expected_version ==> *final(el)
                == queue@.payloads[old(self)@.pos as int],
            queue@.versions[old(self)@.pos as int] > old(self)@.expected_version ==> is_stop(
                queue@.versions,
                old(self)@.index(queue@.len()),
                final(self)@.index(queue@.len()) - queue@.len(),
            ),
    {
        match self.try_consume(queue, el) {
            Ok(()) => {
                proof {
                    lemma_advanced_index(old(self)@, queue@.len());
                }
                true
            },
            Err(ReadError::Empty) => false,
            Err(ReadError::SpedPast) => {
                self.recover_after_error(queue);
                false
            },
        }
    }
}

proof fn lemma_index_bound(cur: CursorView, len: nat)
    requires
        cur.wf(len),
    ensures
        cur.index(len) < (usize::MAX / 2) * len,
{
    let half: int = cur.expected_version as int / 2;
    assert((half - 1) * len + len == half * len) by (nonlinear_arith);
    assert(half * len <= (usize::MAX / 2) * len) by (nonlinear_arith)
        requires
            half <= usize::MAX / 2,
            len >= 0,
    ;
}

proof fn lemma_index_lap(cur: CursorView, len: nat)
    requires
        cur.wf(len),
        cur.expected_version + 2 <= usize::MAX,
    ensures
        (CursorView {
            pos: cur.pos,
            expected_version: (cur.expected_version + 2) as usize,
        }).index(len) == cur.index(len) + len,
{
    let half: int = cur.expected_version as int / 2;
    assert((half - 1) * len + len == half * len) by (nonlinear_arith);
}

} // verus!
