use ma_queues::layout::{
    cell_bytes, is_power_of_two, next_power_of_two, push_word, read_word, ring_bytes, vector_bytes,
};
use ma_queues::seqlock::Seqlock;
use ma_queues::vector::{SeqlockVector, VectorHeader};

#[test]
fn vector_write_then_read() {
    let mut v = SeqlockVector::new(5, [0u8; 56]);
    assert_eq!(v.len(), 5);
    v.write(3, &[9; 56]);
    v.write_multi(4, &[8; 56]);
    let mut out = [1u8; 56];
    v.read(3, &mut out);
    assert_eq!(out, [9; 56]);
    v.read(0, &mut out);
    assert_eq!(out, [0; 56]);
    assert_eq!(v.read_copy(4), [8; 56]);
    v.write(3, &[7; 56]);
    assert_eq!(v.read_copy(3), [7; 56]);
    assert_eq!(v.version_of(3), 4);
    assert_eq!(v.version_of(4), 2);
    assert_eq!(v.version_of(0), 0);
}

#[test]
fn vector_iterates_in_index_order() {
    let mut v = SeqlockVector::new(4, 0u32);
    for i in 0..4usize {
        v.write(i, &(10 * i as u32));
    }
    let mut it = v.iter();
    assert_eq!(it.next(), Some(0));
    assert_eq!(it.next(), Some(10));
    assert_eq!(it.collect(), vec![20, 30]);
    assert_eq!(it.next(), None);
    assert_eq!(it.next_id, 4);
    assert_eq!(v.iter().collect(), vec![0, 10, 20, 30]);
    let empty = SeqlockVector::new(0, 0u32);
    assert_eq!(empty.iter().next(), None);
}

#[test]
fn vector_size_of_counts_header_and_cells() {
    assert_eq!(SeqlockVector::<[u8; 56]>::size_of(10), 16 + 10 * 64);
    assert_eq!(SeqlockVector::<[u8; 1656]>::size_of(3), 16 + 3 * 1664);
    assert_eq!(SeqlockVector::<[u8; 56]>::size_of(0), 16);
}

#[test]
fn vector_shared_creates_or_reuses() {
    let fresh = |n: usize| -> Vec<Seqlock<u16>> { (0..n).map(|_| Seqlock::new(0u16)).collect() };
    let v = SeqlockVector::shared(None, fresh(3), 3).unwrap();
    assert_eq!(v.len(), 3);

    let mut existing = fresh(8);
    existing[2].write(&77);
    let v = SeqlockVector::shared(Some(VectorHeader::new(64, 8)), existing, 4).unwrap();
    assert_eq!(v.len(), 4);
    assert_eq!(v.read_copy(2), 77);
    assert_eq!(v.iter().collect(), vec![0, 0, 77, 0]);

    let r = SeqlockVector::shared(Some(VectorHeader::new(64, 2)), fresh(2), 4);
    assert!(matches!(r, Err("Existing shmem too small")));
}

#[test]
fn vector_header_bytes() {
    let h = VectorHeader::new(128, 0x0102);
    let bytes = h.to_bytes();
    assert_eq!(bytes, vec![128, 0, 0, 0, 0, 0, 0, 0, 2, 1, 0, 0, 0, 0, 0, 0]);
    let mut raw = [0u8; 16];
    raw.copy_from_slice(&bytes);
    let back = VectorHeader::from_ptr(&raw);
    assert_eq!(back.elsize(), 128);
    assert_eq!(back.bufsize(), 0x0102);
}

#[test]
fn cell_sizes() {
    assert_eq!(cell_bytes(0), 64);
    assert_eq!(cell_bytes(56), 64);
    assert_eq!(cell_bytes(57), 128);
    assert_eq!(cell_bytes(120), 128);
    assert_eq!(cell_bytes(1656), 1664);
    assert_eq!(cell_bytes(4088), 4096);
    assert_eq!(cell_bytes(7224), 7232);
    for payload in [56usize, 120, 248, 504, 1016, 2040, 4088] {
        let cell = cell_bytes(payload);
        assert!(is_power_of_two(cell));
        assert_eq!(cell % 64, 0);
        for k in 0..12 {
            assert_eq!(ring_bytes(payload, 1 << k), 64 + (1 << k) * cell);
        }
    }
}

#[test]
fn sizes_of_regions() {
    assert_eq!(ring_bytes(56, 16), 1088);
    assert_eq!(ring_bytes(56, 17), 64 + 32 * 64);
    assert_eq!(ring_bytes(56, 0), 128);
    assert_eq!(vector_bytes(56, 17), 16 + 17 * 64);
}

#[test]
fn powers_of_two() {
    assert!(!is_power_of_two(0));
    assert!(is_power_of_two(1));
    assert!(is_power_of_two(2));
    assert!(!is_power_of_two(3));
    assert!(is_power_of_two(1 << 31));
    assert!(!is_power_of_two(usize::MAX));
    assert_eq!(next_power_of_two(0), 1);
    assert_eq!(next_power_of_two(1), 1);
    assert_eq!(next_power_of_two(3), 4);
    assert_eq!(next_power_of_two(16), 16);
    assert_eq!(next_power_of_two(17), 32);
    for n in 0..200usize {
        assert_eq!(next_power_of_two(n), n.next_power_of_two());
        assert_eq!(is_power_of_two(n), n.is_power_of_two());
    }
}

#[test]
fn words_are_little_endian() {
    let mut out = vec![0xaau8];
    push_word(&mut out, 0x0102030405060708);
    assert_eq!(out, vec![0xaa, 8, 7, 6, 5, 4, 3, 2, 1]);
    assert_eq!(read_word(&out, 1), 0x0102030405060708);
    assert_eq!(read_word(&[0xff; 8], 0), u64::MAX);
    for w in [0u64, 1, 255, 256, 0xdead_beef, u64::MAX - 1] {
        let mut b = Vec::new();
        push_word(&mut b, w);
        assert_eq!(b, w.to_le_bytes().to_vec());
        assert_eq!(read_word(&b, 0), w);
    }
}
