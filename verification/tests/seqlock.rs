use ma_queues::error::ReadError;
use ma_queues::layout::cell_bytes;
use ma_queues::seqlock::Seqlock;
use ma_queues::versioned_lock::VersionedLock;

#[test]
fn seqlock_lock_size() {
    assert_eq!(cell_bytes(std::mem::size_of::<[u8; 48]>()), 64);
    assert_eq!(cell_bytes(std::mem::size_of::<[u8; 61]>()), 128)
}

#[test]
fn versioned_lock_lock_size() {
    assert_eq!(cell_bytes(std::mem::size_of::<[u8; 48]>()), 64);
    assert_eq!(cell_bytes(std::mem::size_of::<[u8; 61]>()), 128)
}

fn boxed<const N: usize>(fill: usize) -> Box<[usize; N]> {
    match vec![fill; N].into_boxed_slice().try_into() {
        Ok(b) => b,
        Err(_) => unreachable!(),
    }
}

fn check_uniform<const N: usize>(msg: &[usize; N]) {
    let first = msg[0];
    for i in msg.iter() {
        assert_eq!(first, *i);
    }
}

fn read_test<const N: usize>() {
    let mut lock = Box::new(Seqlock::new([0usize; N]));
    let mut msg = boxed::<N>(0);
    let mut out = boxed::<N>(7);
    lock.read_no_ver(&mut out);
    check_uniform(&out);
    let mut count: usize = 0;
    while count < 40 {
        msg.fill(count);
        lock.write(&msg);
        lock.read_no_ver(&mut out);
        check_uniform(&out);
        assert_eq!(out[0], count);
        assert_eq!(lock.version(), 2 * (count + 1));
        count = count.wrapping_add(1);
    }
}

fn read_test_multi<const N: usize>() {
    let mut lock = Box::new(Seqlock::new([0usize; N]));
    let mut first = boxed::<N>(0);
    let mut second = boxed::<N>(0);
    let mut out = boxed::<N>(7);
    let mut count: usize = 0;
    while count < 20 {
        first.fill(count);
        second.fill(1000 + count);
        lock.write_multi(&first);
        lock.read_no_ver(&mut out);
        check_uniform(&out);
        assert_eq!(out[0], count);
        lock.write_multi(&second);
        lock.read_no_ver(&mut out);
        check_uniform(&out);
        assert_eq!(out[0], 1000 + count);
        assert_eq!(lock.version(), 4 * (count + 1));
        count = count.wrapping_add(1);
    }
}

#[test]
fn read_16() {
    read_test::<16>()
}
#[test]
fn read_32() {
    read_test::<32>()
}
#[test]
fn read_64() {
    read_test::<64>()
}
#[test]
fn read_128() {
    read_test::<128>()
}
#[test]
fn read_large() {
    read_test::<65536>()
}

#[test]
fn read_16_multi() {
    read_test_multi::<16>()
}
#[test]
fn read_32_multi() {
    read_test_multi::<32>()
}
#[test]
fn read_64_multi() {
    read_test_multi::<64>()
}
#[test]
fn read_128_multi() {
    read_test_multi::<128>()
}
#[test]
fn read_large_multi() {
    read_test_multi::<65536>()
}

#[test]
fn seqlock_write_unpoison() {
    let mut lock = Seqlock::default();
    lock.set_version(1);
    lock.write_unpoison(&1);
    assert_eq!(lock.version(), 2);
}

#[test]
fn versioned_lock_write_unpoison() {
    let mut lock = VersionedLock::default();
    lock._set_version(1);
    lock.write_unpoison(&1);
    assert_eq!(lock.version(), 2);
}

#[test]
fn write_unpoison_stores_the_payload() {
    let mut lock = Seqlock::new(0u32);
    lock.set_version(1);
    lock.write_unpoison(&42);
    assert_eq!(lock.version(), 2);
    assert_eq!(lock.read_copy(), 42);
    // An even version is already closed: it stays.
    lock.write_unpoison(&43);
    assert_eq!(lock.version(), 2);
    assert_eq!(lock.read_copy(), 43);
    lock.set_version(usize::MAX);
    lock.write_unpoison(&44);
    assert_eq!(lock.version(), 0);
}

#[test]
fn versioned_read_outcomes() {
    let mut lock = Seqlock::new(5u8);
    let mut out = 0u8;
    assert_eq!(lock.read(&mut out, 2), Err(ReadError::Empty));
    assert_eq!(out, 0);
    assert_eq!(lock.read(&mut out, 0), Ok(()));
    assert_eq!(out, 5);
    lock.write(&6);
    assert_eq!(lock.version(), 2);
    assert_eq!(lock.read(&mut out, 2), Ok(()));
    assert_eq!(out, 6);
    lock.write(&7);
    assert_eq!(lock.read(&mut out, 2), Err(ReadError::SpedPast));
    assert_eq!(out, 7);
    // A cell caught mid-write never delivers.
    lock.set_version(5);
    out = 0;
    assert_eq!(lock.read(&mut out, 5), Err(ReadError::Empty));
    assert_eq!(out, 0);
    assert_eq!(lock.read(&mut out, 6), Err(ReadError::Empty));
    assert_eq!(lock.read(&mut out, 4), Err(ReadError::SpedPast));
}

#[test]
fn write_wraps_at_the_machine_word() {
    let mut lock = Seqlock::new(0u8);
    lock.set_version(usize::MAX - 1);
    lock.write(&1);
    assert_eq!(lock.version(), 0);
    lock.set_version(usize::MAX - 1);
    lock.write_multi(&2);
    assert_eq!(lock.version(), 0);
    assert_eq!(lock.read_copy(), 2);
}

#[test]
fn versioned_lock_reads_and_writes() {
    let mut lock: VersionedLock<[u8; 4]> = VersionedLock::new([0; 4]);
    let mut m = [9u8; 4];
    assert!(matches!(lock.read(&mut m, 2), Err(ReadError::Empty)));
    assert_eq!(m, [9; 4]);
    lock.write(&[1; 4]);
    assert_eq!(lock.read(&mut m, 2), Ok(()));
    assert_eq!(m, [1; 4]);
    lock.write(&[2; 4]);
    assert_eq!(lock.read(&mut m, 2), Err(ReadError::SpedPast));
    assert_eq!(m, [1; 4]);
    assert_eq!(lock.read_no_ver(&mut m), 4);
    assert_eq!(m, [2; 4]);
    lock.set_version(10);
    assert_eq!(lock.version(), 10);
    lock.write_unpoison(&[3; 4]);
    assert_eq!(lock.version(), 10);
}

#[test]
fn error_messages() {
    assert_eq!(ReadError::SpedPast.message(), "Got sped past");
    assert_eq!(ReadError::Empty.message(), "Lock empty");
}
