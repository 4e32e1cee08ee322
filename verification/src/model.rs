//! The ring and a consumer cursor as mathematical values, and what holds of
//! them: the lap invariant, in-order delivery and recovery after a lap.
use vstd::prelude::*;
use vstd::arithmetic::power2::is_pow2;
use vstd::arithmetic::div_mod::lemma_fundamental_div_mod;
use vstd::arithmetic::div_mod::lemma_fundamental_div_mod_converse;
use crate::error::ReadError;
use crate::seqlock::read_outcome;
use crate::seqlock::unpoisoned;

verus! {

/// The state of a ring: the publish count and, slot by slot, the version
/// and the payload of each cell.
pub struct RingView<T> {
    pub count: usize,
    pub versions: Seq<usize>,
    pub payloads: Seq<T>,
}

/// The state of a consumer cursor.
pub struct CursorView {
    pub pos: usize,
    pub expected_version: usize,
}

/// The version a reader expects of the cell that the publish with this
/// index writes: twice the number of writes that slot has then seen.
pub open spec fn expected_at(index: int, len: nat) -> int {
    2 * (index / len as int) + 2
}

/// The slot that the publish with this index writes.
pub open spec fn slot_at(index: int, len: nat) -> int {
    index % len as int
}

impl<T> RingView<T> {
    /// Number of slots.
    pub open spec fn len(self) -> nat {
        self.versions.len()
    }

    /// The number of slots is a power of two that fits a word, and every
    /// slot has a version and a payload.
    pub open spec fn wf(self) -> bool {
        &&& is_pow2(self.versions.len() as int)
        &&& self.payloads.len() == self.versions.len()
        &&& self.versions.len() <= usize::MAX
    }

    /// The slot the next publish goes to.
    pub open spec fn slot(self) -> int {
        self.count as int % self.len() as int
    }

    /// Full rotations the publish count has made.
    pub open spec fn lap(self) -> int {
        self.count as int / self.len() as int
    }

    /// The ring after one publish of `item`: the cell at the current slot
    /// takes the payload and moves on by two, the count by one, both
    /// wrapping at the machine word.
    pub open spec fn published(self, item: T) -> RingView<T> {
        RingView {
            count: self.count.wrapping_add(1),
            versions: self.versions.update(
                self.slot(),
                self.versions[self.slot()].wrapping_add(2),
            ),
            payloads: self.payloads.update(self.slot(), item),
        }
    }

    /// The ring after publishing `items` one after the other.
    pub open spec fn published_all(self, items: Seq<T>) -> RingView<T>
        decreases items.len(),
    {
        if items.len() == 0 {
            self
        } else {
            self.published_all(items.drop_last()).published(items.last())
        }
    }

    /// The ring after a recovery write of `item` into the current slot: the
    /// cell takes the payload and closes the interrupted write; the count
    /// stays.
    pub open spec fn recovered(self, item: T) -> RingView<T> {
        RingView {
            count: self.count,
            versions: self.versions.update(self.slot(), unpoisoned(self.versions[self.slot()])),
            payloads: self.payloads.update(self.slot(), item),
        }
    }

    /// The version a cursor created now expects: twice the lap count plus
    /// two, wrapping at the machine word.
    pub open spec fn lap_version(self) -> usize {
        let lap = self.lap() as usize;
        lap.wrapping_add(lap).wrapping_add(2)
    }

    /// The cursor of a consumer created now.
    pub open spec fn tail_cursor(self) -> CursorView {
        CursorView { pos: self.slot() as usize, expected_version: self.lap_version() }
    }

    /// The version counters are far from wrapping.
    pub open spec fn fits(self) -> bool {
        2 * (self.lap() + 4) <= usize::MAX
    }

    /// The lap invariant: every slot before the current one has been written
    /// once more than the lap count, every other slot exactly that often.
    pub open spec fn in_step(self) -> bool {
        &&& self.wf()
        &&& self.fits()
        &&& forall|q: int|
            0 <= q < self.len() ==> #[trigger] self.versions[q] == 2 * self.lap() + (if q
                < self.slot() {
                2int
            } else {
                0int
            })
    }

    /// The ring is what publishing `history`, in order, onto a fresh ring
    /// leaves: every written cell holds the last value published into it.
    pub open spec fn holds(self, history: Seq<T>) -> bool {
        &&& self.in_step()
        &&& self.count == history.len()
        &&& forall|q: int|
            0 <= q < self.len() && self.versions[q] >= 2 ==> #[trigger] self.payloads[q]
                == history[(self.versions[q] / 2 - 1) * self.len() + q]
    }
}

impl CursorView {
    /// The cursor points into a ring of `len` slots and expects an even
    /// version of at least two, the first a cell is ever published at.
    pub open spec fn wf(self, len: nat) -> bool {
        &&& self.pos < len
        &&& self.expected_version % 2 == 0
        &&& self.expected_version >= 2
    }

    /// The index, in publish order, of the value this cursor waits for.
    pub open spec fn index(self, len: nat) -> int {
        (self.expected_version / 2 - 1) * len + self.pos
    }

    /// The cursor after one delivered value: one slot on, and one lap on
    /// where the slot wraps to zero.
    pub open spec fn advanced(self, len: nat) -> CursorView {
        if self.pos + 1 < len {
            CursorView { pos: (self.pos + 1) as usize, expected_version: self.expected_version }
        } else {
            CursorView { pos: 0, expected_version: (self.expected_version + 2) as usize }
        }
    }
}

/// `stop` is where skip-ahead recovery from index `from` comes to rest: the
/// first index from there on whose cell is not beyond the version expected
/// at that index.
pub open spec fn is_stop(versions: Seq<usize>, from: int, stop: int) -> bool {
    &&& from <= stop
    &&& versions[slot_at(stop, versions.len())] <= expected_at(stop, versions.len())
    &&& forall|j: int|
        from <= j < stop ==> versions[slot_at(j, versions.len())] > #[trigger] expected_at(
            j,
            versions.len(),
        )
}

/// Number of places below `upto` at which the version differs from the one
/// before it.
pub open spec fn changes(versions: Seq<usize>, upto: int) -> nat
    decreases upto,
{
    if upto <= 1 {
        0
    } else {
        changes(versions, upto - 1) + (if versions[upto - 1] != versions[upto - 2] {
            1nat
        } else {
            0nat
        })
    }
}

/// What a quiescent ring looks like from outside: no cell is poisoned, and
/// walking the slots in order the version changes at most once.
pub open spec fn consistent(versions: Seq<usize>) -> bool {
    &&& forall|i: int| 0 <= i < versions.len() ==> #[trigger] versions[i] % 2 == 0
    &&& changes(versions, versions.len() as int) <= 1
}

proof fn lemma_scale(a: int, b: int, n: int)
    requires
        a <= b,
        n >= 0,
    ensures
        a * n <= b * n,
        (a + 1) * n == a * n + n,
        (a - 1) * n == a * n - n,
{
    assert(a * n <= b * n) by (nonlinear_arith)
        requires
            a <= b,
            n >= 0,
    ;
    assert((a + 1) * n == a * n + n) by (nonlinear_arith);
    assert((a - 1) * n == a * n - n) by (nonlinear_arith);
}

/// A cursor's slot and expected version are those of its index.
pub proof fn lemma_cursor_index(cur: CursorView, len: nat)
    requires
        cur.wf(len),
    ensures
        cur.index(len) >= 0,
        slot_at(cur.index(len), len) == cur.pos,
        expected_at(cur.index(len), len) == cur.expected_version,
{
    let lap: int = cur.expected_version as int / 2 - 1;
    lemma_scale(0, lap, len as int);
    lemma_fundamental_div_mod_converse(cur.index(len), len as int, lap, cur.pos as int);
}

/// Advancing a cursor moves its index on by one.
pub proof fn lemma_advanced_index(cur: CursorView, len: nat)
    requires
        cur.wf(len),
        len <= usize::MAX,
        cur.expected_version as int + 2 <= usize::MAX,
    ensures
        cur.advanced(len).wf(len),
        cur.advanced(len).index(len) == cur.index(len) + 1,
{
    let lap: int = cur.expected_version as int / 2 - 1;
    lemma_scale(lap, lap, len as int);
    let next = cur.advanced(len);
    if cur.pos + 1 < len {
        assert(next.index(len) == lap * len + (cur.pos + 1));
    } else {
        assert(next.expected_version == cur.expected_version + 2);
        assert(next.expected_version as int / 2 - 1 == lap + 1);
        assert(next.index(len) == (lap + 1) * len + 0);
    }
}

/// In a ring that keeps the lap invariant, how the cell of any index stands
/// to the version expected at that index tells how far the count is ahead of
/// it: not yet there, within one lap, or more than a lap beyond.
pub proof fn lemma_cell_at_index<T>(ring: RingView<T>, j: int)
    requires
        ring.in_step(),
        0 <= j,
    ensures
        0 <= slot_at(j, ring.len()) < ring.len(),
        ring.versions[slot_at(j, ring.len())] == expected_at(j, ring.len()) <==> j < ring.count
            <= j + ring.len(),
        ring.versions[slot_at(j, ring.len())] < expected_at(j, ring.len()) <==> ring.count <= j,
        ring.versions[slot_at(j, ring.len())] > expected_at(j, ring.len()) <==> ring.count > j
            + ring.len(),
{
    reveal(is_pow2);
    let n: int = ring.len() as int;
    let c: int = ring.count as int;
    let l: int = c / n;
    let m: int = c % n;
    let k: int = j / n;
    let q: int = j % n;
    lemma_fundamental_div_mod(c, n);
    lemma_fundamental_div_mod(j, n);
    assert(c == n * l + m);
    assert(j == n * k + q);
    assert(n * l == l * n && n * k == k * n) by (nonlinear_arith);
    let v: int = ring.versions[q] as int;
    if l <= k {
        lemma_scale(l, k, n);
        if l < k {
            lemma_scale(l + 1, k, n);
            lemma_scale(l, l, n);
        }
    } else {
        lemma_scale(k + 1, l, n);
        lemma_scale(k, k, n);
        if k + 1 < l {
            lemma_scale(k + 2, l, n);
            lemma_scale(k + 1, k + 1, n);
        }
    }
}

/// A cursor created on a ring that keeps the lap invariant waits for the
/// value that is published next.
pub proof fn lemma_tail_cursor<T>(ring: RingView<T>)
    requires
        ring.in_step(),
    ensures
        ring.lap_version() == 2 * ring.lap() + 2,
        ring.tail_cursor().wf(ring.len()),
        ring.tail_cursor().index(ring.len()) == ring.count,
{
    reveal(is_pow2);
    let n: int = ring.len() as int;
    let c: int = ring.count as int;
    lemma_fundamental_div_mod(c, n);
    assert(n * (c / n) == (c / n) * n) by (nonlinear_arith);
    lemma_scale(0, c / n, n);
}

proof fn lemma_changes_in_step<T>(ring: RingView<T>, upto: int)
    requires
        ring.in_step(),
        0 <= upto <= ring.len(),
    ensures
        changes(ring.versions, upto) == (if 0 < ring.slot() < upto {
            1nat
        } else {
            0nat
        }),
    decreases upto,
{
    if upto > 1 {
        lemma_changes_in_step(ring, upto - 1);
        assert(ring.versions[upto - 1] == 2 * ring.lap() + (if upto - 1 < ring.slot() {
            2int
        } else {
            0int
        }));
        assert(ring.versions[upto - 2] == 2 * ring.lap() + (if upto - 2 < ring.slot() {
            2int
        } else {
            0int
        }));
    }
}

/// A ring that keeps the lap invariant is consistent.
pub proof fn lemma_in_step_consistent<T>(ring: RingView<T>)
    requires
        ring.in_step(),
    ensures
        consistent(ring.versions),
{
    lemma_changes_in_step(ring, ring.len() as int);
    assert forall|i: int| 0 <= i < ring.versions.len() implies #[trigger] ring.versions[i] % 2
        == 0 by {
        assert(ring.versions[i] == 2 * ring.lap() + (if i < ring.slot() {
            2int
        } else {
            0int
        }));
    }
}

/// A ring at count zero with every version zero holds the empty history.
pub proof fn lemma_fresh_holds<T>(ring: RingView<T>)
    requires
        ring.wf(),
        ring.count == 0,
        forall|q: int| 0 <= q < ring.len() ==> #[trigger] ring.versions[q] == 0,
    ensures
        ring.holds(Seq::<T>::empty()),
{
    reveal(is_pow2);
}

/// Publishing appends to the history the ring holds.
pub proof fn lemma_publish_holds<T>(ring: RingView<T>, history: Seq<T>, item: T)
    requires
        ring.holds(history),
        ring.count < usize::MAX,
        ring.published(item).fits(),
    ensures
        ring.published(item).holds(history.push(item)),
{
    reveal(is_pow2);
    let n: int = ring.len() as int;
    let c: int = ring.count as int;
    let l: int = c / n;
    let m: int = c % n;
    let next = ring.published(item);
    lemma_fundamental_div_mod(c, n);
    assert(n * l == l * n) by (nonlinear_arith);
    lemma_scale(l, l, n);
    assert(ring.versions[m] == 2 * l);
    assert(next.versions[m] == 2 * l + 2);
    if m + 1 < n {
        lemma_fundamental_div_mod_converse(c + 1, n, l, m + 1);
    } else {
        lemma_fundamental_div_mod_converse(c + 1, n, l + 1, 0);
    }
    assert forall|q: int| 0 <= q < next.len() implies #[trigger] next.versions[q] == 2
        * next.lap() + (if q < next.slot() {
        2int
    } else {
        0int
    }) by {
        if q != m {
            assert(next.versions[q] == ring.versions[q]);
        }
    }
    assert forall|q: int| 0 <= q < next.len() && next.versions[q] >= 2 implies #[trigger] next.payloads[q]
        == history.push(item)[(next.versions[q] / 2 - 1) * next.len() + q] by {
        if q != m {
            assert(next.versions[q] == ring.versions[q]);
            assert(next.payloads[q] == ring.payloads[q]);
            let w: int = ring.versions[q] as int / 2 - 1;
            if q < m {
                assert(w == l);
            } else {
                assert(w == l - 1);
            }
            assert(w * n + q < c);
        } else {
            assert(next.versions[q] as int / 2 - 1 == l);
        }
    }
}

/// Total order. Publishing `items` one after the other onto a ring that
/// holds `history` leaves a ring that holds `history` followed by `items`:
/// with `lemma_poll_in_order`, every cursor gets these values in exactly
/// this order, none twice, as long as it is not lapped.
pub proof fn lemma_publish_all_holds<T>(ring: RingView<T>, history: Seq<T>, items: Seq<T>)
    requires
        ring.holds(history),
        history.len() + items.len() <= usize::MAX,
        2 * ((history.len() + items.len()) as int / ring.len() as int + 4) <= usize::MAX,
    ensures
        ring.published_all(items).holds(history + items),
        ring.published_all(items).len() == ring.len(),
    decreases items.len(),
{
    reveal(is_pow2);
    if items.len() == 0 {
        assert(history + items =~= history);
    } else {
        let front = items.drop_last();
        let n: int = ring.len() as int;
        vstd::arithmetic::div_mod::lemma_div_is_ordered(
            (history.len() + front.len()) as int,
            (history.len() + items.len()) as int,
            n,
        );
        lemma_publish_all_holds(ring, history, front);
        let before = ring.published_all(front);
        assert(before.published(items.last()).lap() == (history.len() + items.len()) as int / n);
        lemma_publish_holds(before, history + front, items.last());
        assert((history + front).push(items.last()) =~= history + items);
    }
}

/// Repairing a cell that a crashed writer left at the odd version of the
/// current lap leaves it published at the version that lap expects, with
/// the payload of the repairing write.
pub proof fn lemma_repair_closes_lap<T>(ring: RingView<T>, item: T)
    requires
        ring.wf(),
        ring.fits(),
        ring.versions[ring.slot()] == 2 * ring.lap() + 1,
    ensures
        ring.recovered(item).versions[ring.slot()] == ring.lap_version(),
        ring.recovered(item).payloads[ring.slot()] == item,
        ring.recovered(item).count == ring.count,
{
    reveal(is_pow2);
    let n: int = ring.len() as int;
    lemma_fundamental_div_mod(ring.count as int, n);
    vstd::arithmetic::div_mod::lemma_div_pos_is_pos(ring.count as int, n);
}

/// The version of every cell only moves on, by exactly two at the slot
/// written and not at all elsewhere.
pub proof fn lemma_publish_versions<T>(ring: RingView<T>, item: T, q: int)
    requires
        ring.wf(),
        0 <= q < ring.len(),
        ring.versions[q] as int + 2 <= usize::MAX,
    ensures
        ring.published(item).versions[q] == ring.versions[q] + (if q == ring.slot() {
            2int
        } else {
            0int
        }),
        ring.published(item).versions[q] >= ring.versions[q],
        ring.published(item).versions[q] % 2 == ring.versions[q] % 2,
{
    reveal(is_pow2);
}

/// In-order delivery. Against a ring that holds `history`, a cursor waiting
/// for index `k` is told `Empty` while `k` has not been published, gets
/// exactly `history[k]` while that value is still in the ring, and is told
/// `SpedPast` once the ring has gone more than a lap beyond it; a delivery
/// moves the cursor to index `k + 1`.
pub proof fn lemma_poll_in_order<T>(ring: RingView<T>, history: Seq<T>, cur: CursorView)
    requires
        ring.holds(history),
        cur.wf(ring.len()),
    ensures
        ({
            let k = cur.index(ring.len());
            let r = read_outcome(ring.versions[cur.pos as int], cur.expected_version);
            &&& 0 <= k
            &&& r == Err::<(), ReadError>(ReadError::Empty) <==> history.len() <= k
            &&& r == Ok::<(), ReadError>(()) <==> k < history.len() <= k + ring.len()
            &&& r == Err::<(), ReadError>(ReadError::SpedPast) <==> history.len() > k + ring.len()
            &&& r.is_ok() ==> ring.payloads[cur.pos as int] == history[k]
            &&& r.is_ok() ==> cur.advanced(ring.len()).wf(ring.len())
            &&& r.is_ok() ==> cur.advanced(ring.len()).index(ring.len()) == k + 1
        }),
{
    let k = cur.index(ring.len());
    lemma_cursor_index(cur, ring.len());
    lemma_cell_at_index(ring, k);
    let r = read_outcome(ring.versions[cur.pos as int], cur.expected_version);
    if r.is_ok() {
        lemma_advanced_index(cur, ring.len());
    }
}

/// Recovery after a lap. Where a cursor waiting for index `k` has been
/// lapped, skip-ahead recovery leaves it waiting for the value that is
/// published next: every value it delivers afterwards has an index of at
/// least the count at recovery, which is more than a lap beyond `k`.
pub proof fn lemma_recovery_resyncs<T>(ring: RingView<T>, before: CursorView, after: CursorView)
    requires
        ring.in_step(),
        before.wf(ring.len()),
        after.wf(ring.len()),
        ring.count > before.index(ring.len()) + ring.len(),
        is_stop(ring.versions, before.index(ring.len()), after.index(ring.len()) - ring.len()),
    ensures
        after.index(ring.len()) == ring.count,
        after.index(ring.len()) > before.index(ring.len()) + ring.len(),
{
    let n: int = ring.len() as int;
    let k: int = before.index(ring.len());
    let stop: int = after.index(ring.len()) - n;
    let tail: int = ring.count as int - n;
    lemma_cursor_index(before, ring.len());
    lemma_cell_at_index(ring, stop);
    lemma_cell_at_index(ring, tail);
    if stop > tail {
        assert(ring.versions[slot_at(tail, ring.versions.len())] > expected_at(
            tail,
            ring.versions.len(),
        ));
    }
}

} // verus!
