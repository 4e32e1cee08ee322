//! Sizes of the memory regions: cache-line sized cells behind a header.
use vstd::prelude::*;
use vstd::arithmetic::power2::is_pow2;

verus! {

/// Bytes of the ring header.
pub const HEADER_BYTES: usize = 64;

/// Bytes of the vector header.
pub const VECTOR_HEADER_BYTES: usize = 16;

/// Bytes of a cache line, to which every cell is padded.
pub const CACHE_LINE: usize = 64;

/// Bytes of the version counter at the front of a cell.
pub const VERSION_BYTES: usize = 8;

/// Bytes of a cell whose payload has `payload` bytes: version and payload,
/// rounded up to whole cache lines.
pub open spec fn cell_size(payload: nat) -> nat {
    ((payload + 8 + 63) / 64) * 64
}

/// Doubling from `p` until `n` is reached.
pub open spec fn pow2_from(p: nat, n: nat) -> nat
    decreases (if p < n { n - p } else { 0 }),
{
    if p >= n || p == 0 {
        p
    } else {
        pow2_from(2 * p, n)
    }
}

/// The smallest power of two that is at least `n`.
pub open spec fn next_pow2(n: nat) -> nat {
    pow2_from(1, n)
}

/// Bytes of a ring of `len` slots (rounded up to a power of two) for
/// payloads of `payload` bytes.
pub open spec fn ring_size(payload: nat, len: nat) -> nat {
    64 + next_pow2(len) * cell_size(payload)
}

/// Bytes of a vector of `len` cells for payloads of `payload` bytes.
pub open spec fn vector_size(payload: nat, len: nat) -> nat {
    16 + len * cell_size(payload)
}

/// Payload sizes for which a ring can be laid out by size alone.
pub open spec fn ring_supports(payload: nat) -> bool {
    payload == 56 || payload == 120 || payload == 248 || payload == 504 || payload == 1016
        || payload == 2040 || payload == 4088
}

/// Payload sizes for which a vector can be laid out by size alone.
pub open spec fn vector_supports(payload: nat) -> bool {
    ring_supports(payload) || payload == 1656 || payload == 7224
}

/// Doubling from `p` ends at or above both `p` and `n`, below twice `n`
/// where it had to double at all, and on a power of two if it began on one.
pub proof fn lemma_pow2_from_bounds(p: nat, n: nat)
    requires
        p >= 1,
    ensures
        pow2_from(p, n) >= p,
        pow2_from(p, n) >= n,
        p < n ==> pow2_from(p, n) < 2 * n,
        is_pow2(p as int) ==> is_pow2(pow2_from(p, n) as int),
    decreases (if p < n { n - p } else { 0 }),
{
    if p < n {
        lemma_pow2_from_bounds(2 * p, n);
        if is_pow2(p as int) {
            reveal(is_pow2);
            assert((2 * p) as int / 2 == p as int);
            assert(is_pow2((2 * p) as int));
        }
    }
}

/// Between a power of two and a larger one lies a factor of two.
pub proof fn lemma_pow2_gap(p: int, n: int)
    requires
        is_pow2(p),
        is_pow2(n),
        p < n,
    ensures
        2 * p <= n,
    decreases p,
{
    reveal(is_pow2);
    if p > 1 {
        lemma_pow2_gap(p / 2, n / 2);
    }
}

proof fn lemma_pow2_from_reaches(p: nat, n: nat)
    requires
        is_pow2(p as int),
        is_pow2(n as int),
        p <= n,
    ensures
        pow2_from(p, n) == n,
    decreases (if p < n { n - p } else { 0 }),
{
    reveal(is_pow2);
    if p < n {
        lemma_pow2_gap(p as int, n as int);
        assert((2 * p) as int / 2 == p as int);
        assert(is_pow2((2 * p) as int));
        lemma_pow2_from_reaches(2 * p, n);
    }
}

/// `next_pow2(n)` is a power of two, at least `n`, and less than twice `n`;
/// a power of two is its own.
pub proof fn lemma_next_pow2(n: nat)
    ensures
        is_pow2(next_pow2(n) as int),
        next_pow2(n) >= n,
        n >= 1 ==> next_pow2(n) < 2 * n,
        n == 0 ==> next_pow2(n) == 1,
        is_pow2(n as int) ==> next_pow2(n) == n,
{
    reveal(is_pow2);
    assert(is_pow2(1));
    lemma_pow2_from_bounds(1, n);
    if is_pow2(n as int) {
        lemma_pow2_from_reaches(1, n);
    }
}

/// For a supported payload size and a power-of-two length, a ring takes the
/// header and exactly `len` cells, and the cell size is a power of two and a
/// whole number of cache lines.
pub proof fn lemma_ring_size(payload: nat, len: nat)
    requires
        ring_supports(payload),
        is_pow2(len as int),
    ensures
        ring_size(payload, len) == 64 + len * cell_size(payload),
        cell_size(payload) == payload + 8,
        is_pow2(cell_size(payload) as int),
        cell_size(payload) % 64 == 0,
{
    lemma_next_pow2(len);
    assert(is_pow2(64) && is_pow2(128) && is_pow2(256) && is_pow2(512) && is_pow2(1024)
        && is_pow2(2048) && is_pow2(4096)) by {
        reveal_with_fuel(is_pow2, 14);
    }
}

/// A cell is always a whole number of cache lines and holds version and payload.
pub proof fn lemma_cell_size(payload: nat)
    ensures
        cell_size(payload) % 64 == 0,
        cell_size(payload) >= payload + 8,
        cell_size(payload) < payload + 8 + 64,
{
}

/// Whether `n` is a power of two.
pub fn is_power_of_two(n: usize) -> (r: bool)
    ensures
        r == is_pow2(n as int),
{
    reveal(is_pow2);
    if n == 0 {
        return false;
    }
    let mut v: usize = n;
    while v % 2 == 0
        invariant
            v >= 1,
            is_pow2(v as int) == is_pow2(n as int),
        decreases v,
    {
        proof {
            reveal(is_pow2);
        }
        v = v / 2;
    }
    v == 1
}

/// The smallest power of two that is at least `len`.
pub fn next_power_of_two(len: usize) -> (r: usize)
    requires
        next_pow2(len as nat) <= usize::MAX,
    ensures
        r == next_pow2(len as nat),
{
    let mut p: usize = 1;
    while p < len
        invariant
            p >= 1,
            pow2_from(p as nat, len as nat) == next_pow2(len as nat),
            next_pow2(len as nat) <= usize::MAX,
        decreases (if p < len { len - p } else { 0 }),
    {
        proof {
            lemma_pow2_from_bounds(2 * (p as nat), len as nat);
        }
        p = p * 2;
    }
    p
}

/// Bytes of a cell for a payload of `payload` bytes.
pub fn cell_bytes(payload: usize) -> (r: usize)
    requires
        cell_size(payload as nat) <= usize::MAX,
    ensures
        r == cell_size(payload as nat),
{
    let lines: usize = (payload - payload % 64) / 64 + (payload % 64 + 8 + 63) / 64;
    lines * 64
}

/// Bytes of a ring of `len` slots, rounded up to a power of two.
pub fn ring_bytes(payload: usize, len: usize) -> (r: usize)
    requires
        ring_size(payload as nat, len as nat) <= usize::MAX,
    ensures
        r == ring_size(payload as nat, len as nat),
{
    proof {
        lemma_next_pow2(len as nat);
        lemma_cell_size(payload as nat);
        lemma_product_bounds(next_pow2(len as nat), cell_size(payload as nat));
    }
    let slots: usize = next_power_of_two(len);
    let cell: usize = cell_bytes(payload);
    HEADER_BYTES + slots * cell
}

/// Bytes of a vector of `len` cells.
pub fn vector_bytes(payload: usize, len: usize) -> (r: usize)
    requires
        vector_size(payload as nat, len as nat) <= usize::MAX,
        cell_size(payload as nat) <= usize::MAX,
    ensures
        r == vector_size(payload as nat, len as nat),
{
    let cell: usize = cell_bytes(payload);
    VECTOR_HEADER_BYTES + len * cell
}

proof fn lemma_product_bounds(a: nat, b: nat)
    requires
        a >= 1,
        b >= 1,
    ensures
        a <= a * b,
        b <= a * b,
{
    assert(a <= a * b && b <= a * b) by (nonlinear_arith)
        requires
            a >= 1,
            b >= 1,
    ;
}

/// The value of the eight bytes at `at`, least significant first.
pub open spec fn le_word(bytes: Seq<u8>, at: int) -> int {
    bytes[at] + bytes[at + 1] * 0x100 + bytes[at + 2] * 0x1_0000 + bytes[at + 3] * 0x100_0000
        + bytes[at + 4] * 0x1_0000_0000 + bytes[at + 5] * 0x100_0000_0000 + bytes[at + 6]
        * 0x1_0000_0000_0000 + bytes[at + 7] * 0x100_0000_0000_0000
}

/// The eight bytes that make up `word`, least significant first.
pub open spec fn word_bytes(word: u64) -> Seq<u8> {
    seq![
        (word % 0x100) as u8,
        (word / 0x100 % 0x100) as u8,
        (word / 0x1_0000 % 0x100) as u8,
        (word / 0x100_0000 % 0x100) as u8,
        (word / 0x1_0000_0000 % 0x100) as u8,
        (word / 0x100_0000_0000 % 0x100) as u8,
        (word / 0x1_0000_0000_0000 % 0x100) as u8,
        (word / 0x100_0000_0000_0000 % 0x100) as u8,
    ]
}

/// Reading back the bytes of a word gives the word.
pub proof fn lemma_word_round_trip(word: u64)
    ensures
        word_bytes(word).len() == 8,
        le_word(word_bytes(word), 0) == word,
{
    let w0: int = word as int;
    let w1: int = w0 / 0x100;
    let w2: int = w1 / 0x100;
    let w3: int = w2 / 0x100;
    let w4: int = w3 / 0x100;
    let w5: int = w4 / 0x100;
    let w6: int = w5 / 0x100;
    let w7: int = w6 / 0x100;
    assert(w2 == w0 / 0x1_0000);
    assert(w3 == w0 / 0x100_0000);
    assert(w4 == w0 / 0x1_0000_0000);
    assert(w5 == w0 / 0x100_0000_0000);
    assert(w6 == w0 / 0x1_0000_0000_0000);
    assert(w7 == w0 / 0x100_0000_0000_0000);
    assert(w7 < 0x100);
    let bytes = word_bytes(word);
    assert(bytes[0] == w0 % 0x100);
    assert(bytes[1] == w1 % 0x100);
    assert(bytes[2] == w2 % 0x100);
    assert(bytes[3] == w3 % 0x100);
    assert(bytes[4] == w4 % 0x100);
    assert(bytes[5] == w5 % 0x100);
    assert(bytes[6] == w6 % 0x100);
    assert(bytes[7] == w7);
}

/// Reads the eight bytes at `at` as a word, least significant byte first.
pub fn read_word(bytes: &[u8], at: usize) -> (w: u64)
    requires
        at + 8 <= bytes@.len(),
    ensures
        w == le_word(bytes@, at as int),
{
    let b0: u64 = bytes[at] as u64;
    let b1: u64 = bytes[at + 1] as u64;
    let b2: u64 = bytes[at + 2] as u64;
    let b3: u64 = bytes[at + 3] as u64;
    let b4: u64 = bytes[at + 4] as u64;
    let b5: u64 = bytes[at + 5] as u64;
    let b6: u64 = bytes[at + 6] as u64;
    let b7: u64 = bytes[at + 7] as u64;
    b0 + b1 * 0x100 + b2 * 0x1_0000 + b3 * 0x100_0000 + b4 * 0x1_0000_0000 + b5
        * 0x100_0000_0000 + b6 * 0x1_0000_0000_0000 + b7 * 0x100_0000_0000_0000
}

/// Appends the eight bytes of `word`, least significant first.
pub fn push_word(out: &mut Vec<u8>, word: u64)
    ensures
        final(out)@ == old(out)@ + word_bytes(word),
{
    out.push((word % 0x100) as u8);
    out.push((word / 0x100 % 0x100) as u8);
    out.push((word / 0x1_0000 % 0x100) as u8);
    out.push((word / 0x100_0000 % 0x100) as u8);
    out.push((word / 0x1_0000_0000 % 0x100) as u8);
    out.push((word / 0x100_0000_0000 % 0x100) as u8);
    out.push((word / 0x1_0000_0000_0000 % 0x100) as u8);
    out.push((word / 0x100_0000_0000_0000 % 0x100) as u8);
    assert(final(out)@ =~= old(out)@ + word_bytes(word));
}

} // verus!
