//! The seqlock protocol step by step: what one writer at a time and any
//! number of readers can observe of a cell when their steps interleave.
//!
//! A cell evolves through a trace of states. Writers move it on: one claims
//! a published cell, which makes the version odd, stores its payload byte by
//! byte in any order, and publishes, which makes the version even again. A
//! reader loads the version, copies the bytes at any later instants, and
//! loads the version once more.
use vstd::prelude::*;

verus! {

/// A cell at one instant: its version, the bytes it holds, and the payload
/// that the last writer to claim it was given.
pub struct CellView {
    pub version: nat,
    pub payload: Seq<u8>,
    pub supplied: Seq<u8>,
}

impl CellView {
    /// No write is in progress.
    pub open spec fn quiescent(self) -> bool {
        self.version % 2 == 0
    }

    /// A published cell holds exactly the payload its last writer was given.
    pub open spec fn whole(self) -> bool {
        &&& self.payload.len() == self.supplied.len()
        &&& self.quiescent() ==> self.payload == self.supplied
    }
}

/// One step of the cell: nothing, a writer claiming the published cell with
/// a payload to write, the claiming writer storing one byte of it, or that
/// writer publishing once every byte is stored.
pub open spec fn step(a: CellView, b: CellView) -> bool {
    ||| b == a
    ||| {
        &&& a.quiescent()
        &&& b.version == a.version + 1
        &&& b.payload == a.payload
        &&& b.supplied.len() == a.payload.len()
    }
    ||| {
        &&& !a.quiescent()
        &&& b.version == a.version
        &&& b.supplied == a.supplied
        &&& exists|i: int|
            0 <= i < a.payload.len() && b.payload == a.payload.update(i, #[trigger] a.supplied[i])
    }
    ||| {
        &&& !a.quiescent()
        &&& a.payload == a.supplied
        &&& b.version == a.version + 1
        &&& b.payload == a.payload
        &&& b.supplied == a.supplied
    }
}

/// A trace in which every state follows from the one before by one step.
pub open spec fn execution(trace: Seq<CellView>) -> bool {
    forall|t: int| 0 <= t && t + 1 < trace.len() ==> step(#[trigger] trace[t], trace[t + 1])
}

/// A read between the instants `t1` and `t2`: byte `i` of `copy` was taken
/// from the cell at the instant `times[i]`, between the two version loads.
pub open spec fn observes(
    trace: Seq<CellView>,
    t1: int,
    t2: int,
    times: Seq<int>,
    copy: Seq<u8>,
) -> bool {
    &&& 0 <= t1 <= t2 < trace.len()
    &&& times.len() == copy.len()
    &&& copy.len() == trace[t1].payload.len()
    &&& forall|i: int|
        0 <= i < copy.len() ==> t1 <= #[trigger] times[i] <= t2 && copy[i]
            == trace[times[i]].payload[i]
}

/// Every state of an execution that starts whole is whole.
pub proof fn lemma_whole(trace: Seq<CellView>, t: int)
    requires
        execution(trace),
        0 <= t < trace.len(),
        trace[0].whole(),
    ensures
        trace[t].whole(),
    decreases t,
{
    if t > 0 {
        lemma_whole(trace, t - 1);
        assert(step(trace[t - 1], trace[t]));
    }
}

/// Version monotonicity: along any execution the version never goes down,
/// and between two quiescent instants it moves on by a multiple of two.
pub proof fn lemma_version_monotone(trace: Seq<CellView>, t1: int, t2: int)
    requires
        execution(trace),
        0 <= t1 <= t2 < trace.len(),
    ensures
        trace[t1].version <= trace[t2].version,
        trace[t1].quiescent() && trace[t2].quiescent() ==> (trace[t2].version
            - trace[t1].version) % 2 == 0,
        trace[t1].payload.len() == trace[t2].payload.len(),
    decreases t2 - t1,
{
    if t1 < t2 {
        lemma_version_monotone(trace, t1, t2 - 1);
        assert(step(trace[t2 - 1], trace[t2]));
    }
}

/// While the version stands at one even value, the cell does not change.
pub proof fn lemma_frozen(trace: Seq<CellView>, t1: int, t: int, t2: int)
    requires
        execution(trace),
        0 <= t1 <= t <= t2 < trace.len(),
        trace[t1].quiescent(),
        trace[t1].version == trace[t2].version,
    ensures
        trace[t].version == trace[t1].version,
        trace[t].payload == trace[t1].payload,
    decreases t - t1,
{
    lemma_version_monotone(trace, t1, t);
    lemma_version_monotone(trace, t, t2);
    if t1 < t {
        lemma_version_monotone(trace, t1, t - 1);
        lemma_version_monotone(trace, t - 1, t2);
        lemma_frozen(trace, t1, t - 1, t2);
        assert(step(trace[t - 1], trace[t]));
    }
}

/// Torn-read freedom. A reader that loads the same even version before and
/// after copying has copied, byte for byte, the payload the cell held at
/// that version; in an execution that starts whole, that is the complete
/// payload one writer was given. A copy that mixes two writes is always
/// betrayed by the versions.
pub proof fn lemma_no_torn_read(
    trace: Seq<CellView>,
    t1: int,
    t2: int,
    times: Seq<int>,
    copy: Seq<u8>,
)
    requires
        execution(trace),
        observes(trace, t1, t2, times, copy),
        trace[t1].quiescent(),
        trace[t1].version == trace[t2].version,
    ensures
        copy == trace[t1].payload,
        trace[0].whole() ==> copy == trace[t1].supplied,
{
    assert forall|i: int| 0 <= i < copy.len() implies copy[i] == trace[t1].payload[i] by {
        lemma_frozen(trace, t1, times[i], t2);
    }
    assert(copy =~= trace[t1].payload);
    if trace[0].whole() {
        lemma_whole(trace, t1);
    }
}

/// The bytes a cell holds while `src` is being stored over `before` and
/// the first `done` bytes are in.
pub open spec fn partly_stored(before: Seq<u8>, src: Seq<u8>, done: int) -> Seq<u8> {
    Seq::new(
        before.len(),
        |i: int|
            if i < done {
                src[i]
            } else {
                before[i]
            },
    )
}

/// The states one write of `src` takes a cell through: the state before,
/// the claimed cell with zero to all bytes stored, and the published cell.
pub open spec fn write_trace(a: CellView, src: Seq<u8>) -> Seq<CellView> {
    Seq::new(
        src.len() + 3,
        |t: int|
            if t == 0 {
                a
            } else if t <= src.len() + 1 {
                CellView {
                    version: a.version + 1,
                    payload: partly_stored(a.payload, src, t - 1),
                    supplied: src,
                }
            } else {
                CellView { version: a.version + 2, payload: src, supplied: src }
            },
    )
}

proof fn lemma_store_is_step(before: Seq<u8>, src: Seq<u8>, version: nat, done: int)
    requires
        src.len() == before.len(),
        0 <= done < src.len(),
        version % 2 == 1,
    ensures
        step(
            CellView { version, payload: partly_stored(before, src, done), supplied: src },
            CellView { version, payload: partly_stored(before, src, done + 1), supplied: src },
        ),
{
    let x = CellView { version, payload: partly_stored(before, src, done), supplied: src };
    let y = CellView { version, payload: partly_stored(before, src, done + 1), supplied: src };
    assert(y.payload =~= x.payload.update(done, x.supplied[done]));
}

/// A write is an execution: it takes a published cell to the next even
/// version with exactly the payload it was given, and every state it
/// passes on the way, where old and new bytes are mixed, has an odd
/// version.
pub proof fn lemma_write_is_execution(a: CellView, src: Seq<u8>)
    requires
        a.quiescent(),
        src.len() == a.payload.len(),
    ensures
        execution(write_trace(a, src)),
        write_trace(a, src).first() == a,
        write_trace(a, src).last() == (CellView {
            version: a.version + 2,
            payload: src,
            supplied: src,
        }),
        forall|t: int|
            0 < t < write_trace(a, src).len() - 1 ==> !(#[trigger] write_trace(a, src)[t]).quiescent(),
{
    let trace = write_trace(a, src);
    let n = src.len() as int;
    let odd: nat = a.version + 1;
    assert forall|t: int| 0 <= t && t + 1 < trace.len() implies step(
        #[trigger] trace[t],
        trace[t + 1],
    ) by {
        let x = trace[t];
        let y = trace[t + 1];
        if t == 0 {
            assert(y.payload =~= a.payload);
            assert(y.version == x.version + 1 && y.supplied.len() == x.payload.len());
        } else if t <= n {
            lemma_store_is_step(a.payload, src, odd, t - 1);
            assert(x == CellView {
                version: odd,
                payload: partly_stored(a.payload, src, t - 1),
                supplied: src,
            });
            assert(partly_stored(a.payload, src, n) =~= src);
            assert(y == CellView {
                version: odd,
                payload: partly_stored(a.payload, src, t),
                supplied: src,
            });
        } else {
            assert(x.payload =~= src);
            assert(x.payload == x.supplied && y.version == x.version + 1 && y.payload
                == x.payload && y.supplied == x.supplied);
        }
    }
}

} // verus!
