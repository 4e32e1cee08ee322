use ma_queues::error::{QueueError, ReadError};
use ma_queues::ffi::{
    queue_size_in_bytes, ring_size_supported, seqlockvector_size_in_bytes, vector_size_supported,
    FFIError, InitQueue, InitSeqlockVector, QueueSizeInBytes, SeqlockVectorSizeInBytes,
};
use ma_queues::inspect::{GenericQueue, QueueMessage, Timestamp};
use ma_queues::messages::{Message120, Message56, Message7224, Message8};
use ma_queues::queue::{Queue, QueueHeader, QueueType};
use ma_queues::seqlock::Seqlock;
use ma_queues::vector::VectorHeader;

#[test]
fn status_of_errors() {
    assert_eq!(FFIError::from(ReadError::SpedPast), FFIError::SpedPast);
    assert_eq!(FFIError::from(ReadError::Empty), FFIError::QueueEmpty);
    assert_eq!(FFIError::from(QueueError::UnInitialized), FFIError::QueueUnInitialized);
    assert_eq!(FFIError::from(QueueError::LengthNotPowerOfTwo), FFIError::QueueLengthNotPowerTwo);
    assert_eq!(
        FFIError::from(QueueError::ElementSizeNotPowerTwo),
        FFIError::UnsupportedMessageSize
    );
    assert_eq!(FFIError::from(Ok::<(), ReadError>(())), FFIError::Success);
    assert_eq!(FFIError::from(Err::<(), ReadError>(ReadError::Empty)), FFIError::QueueEmpty);
    assert_eq!(FFIError::from(Ok::<(), QueueError>(())), FFIError::Success);
    assert_eq!(
        FFIError::from(Err::<(), QueueError>(QueueError::UnInitialized)),
        FFIError::QueueUnInitialized
    );
}

#[test]
fn status_codes_and_messages() {
    let all = [
        FFIError::Success,
        FFIError::UnsupportedMessageSize,
        FFIError::QueueLengthNotPowerTwo,
        FFIError::QueueUnInitialized,
        FFIError::QueueEmpty,
        FFIError::SpedPast,
    ];
    for (i, e) in all.iter().enumerate() {
        assert_eq!(e.code(), i as u32);
    }
    assert_eq!(FFIError::Success.message(), "Success");
    assert_eq!(FFIError::QueueUnInitialized.message(), "Queue was not initialized. Use InitQueue");
    assert_eq!(FFIError::SpedPast.message(), "ReadError: Got sped past");
    assert_eq!(QueueError::UnInitialized.message(), "Queue not initialized");
    assert_eq!(QueueError::LengthNotPowerOfTwo.message(), "Queue length not power of two");
    assert_eq!(QueueError::ElementSizeNotPowerTwo.message(), "Element size not power of two - 4");
}

#[test]
fn supported_sizes() {
    for s in [56u32, 120, 248, 504, 1016, 2040, 4088] {
        assert!(ring_size_supported(s));
        assert!(vector_size_supported(s));
    }
    for s in [1656u32, 7224] {
        assert!(!ring_size_supported(s));
        assert!(vector_size_supported(s));
    }
    for s in [0u32, 8, 60, 64, 4096] {
        assert!(!ring_size_supported(s));
        assert!(!vector_size_supported(s));
    }
}

#[test]
fn queue_size_by_message_size() {
    let mut size = 7usize;
    assert_eq!(queue_size_in_bytes(56, 16, &mut size), FFIError::Success);
    assert_eq!(size, 64 + 16 * 64);
    assert_eq!(queue_size_in_bytes(4088, 1024, &mut size), FFIError::Success);
    assert_eq!(size, 64 + 1024 * 4096);
    size = 7;
    assert_eq!(queue_size_in_bytes(56, 17, &mut size), FFIError::QueueLengthNotPowerTwo);
    assert_eq!(queue_size_in_bytes(60, 17, &mut size), FFIError::QueueLengthNotPowerTwo);
    assert_eq!(queue_size_in_bytes(60, 16, &mut size), FFIError::UnsupportedMessageSize);
    assert_eq!(queue_size_in_bytes(1656, 16, &mut size), FFIError::UnsupportedMessageSize);
    assert_eq!(size, 7);
    assert_eq!(QueueSizeInBytes(120, 8, &mut size), FFIError::Success);
    assert_eq!(size, 64 + 8 * 128);
    assert_eq!(QueueSizeInBytes(120, 9, &mut size), FFIError::QueueLengthNotPowerTwo);
}

#[test]
fn vector_size_by_message_size() {
    let mut size = 7usize;
    assert_eq!(SeqlockVectorSizeInBytes(1656, 3, &mut size), FFIError::Success);
    assert_eq!(size, 16 + 3 * 1664);
    assert_eq!(SeqlockVectorSizeInBytes(56, 0, &mut size), FFIError::Success);
    assert_eq!(size, 16);
    size = 7;
    assert_eq!(SeqlockVectorSizeInBytes(57, 3, &mut size), FFIError::UnsupportedMessageSize);
    assert_eq!(size, 7);
}

#[test]
fn init_queue_fills_the_header() {
    let mut header = QueueHeader::from_ptr(&[0xffu8; 64]);
    assert_eq!(InitQueue(&mut header, QueueType::SPMC, 60, 16), FFIError::UnsupportedMessageSize);
    assert_eq!(InitQueue(&mut header, QueueType::SPMC, 60, 12), FFIError::UnsupportedMessageSize);
    assert_eq!(InitQueue(&mut header, QueueType::SPMC, 56, 12), FFIError::QueueLengthNotPowerTwo);
    assert_eq!(InitQueue(&mut header, QueueType::SPMC, 56, 0), FFIError::QueueLengthNotPowerTwo);
    assert_eq!(header.to_bytes()[8..32], [0xffu8; 24]);
    assert_eq!(InitQueue(&mut header, QueueType::MPMC, 120, 16), FFIError::Success);
    let mut expected = vec![0u8; 64];
    expected[0] = 1;
    expected[1] = 1;
    expected[8] = 128;
    expected[16] = 15;
    assert_eq!(header.to_bytes(), expected);
    assert!(header.is_initialized());
    assert_eq!(header.len(), 16);
    assert_eq!(header.elsize(), 128);
}

#[test]
fn init_vector_fills_the_header() {
    let mut header = VectorHeader::new(1, 2);
    assert_eq!(InitSeqlockVector(&mut header, 100, 5), FFIError::UnsupportedMessageSize);
    assert_eq!((header.elsize(), header.bufsize()), (1, 2));
    assert_eq!(InitSeqlockVector(&mut header, 7224, 5), FFIError::Success);
    assert_eq!((header.elsize(), header.bufsize()), (7232, 5));
    assert_eq!(seqlockvector_size_in_bytes(&mut header, 56, 9), FFIError::Success);
    assert_eq!((header.elsize(), header.bufsize()), (64, 9));
    assert_eq!(seqlockvector_size_in_bytes(&mut header, 55, 1), FFIError::UnsupportedMessageSize);
    assert_eq!((header.elsize(), header.bufsize()), (64, 9));
}

#[test]
fn message_defaults_are_zero() {
    assert_eq!(Message8::default().data, [0u8; 8]);
    assert_eq!(Message56::default().data, [0u8; 56]);
    assert_eq!(Message120::default().data, [0u8; 120]);
    assert_eq!(Message7224::default().data, [0u8; 7224]);
    assert_eq!(std::mem::size_of::<Message56>(), 56);
    let mut q = Queue::new(4, QueueType::SPMC, Message56::default()).unwrap();
    assert_eq!(q.header.elsize(), 64);
    assert_eq!(q.produce(&Message56 { data: [3; 56] }), 0);
    let mut out = Message56::default();
    q.read(&mut out, 0);
    assert_eq!(out.data, [3u8; 56]);
}

fn ring_bytes_of(versions: &[u64], elsize: usize) -> Vec<u8> {
    let mut bytes = vec![0u8; versions.len() * elsize];
    for (i, v) in versions.iter().enumerate() {
        bytes[i * elsize..i * elsize + 8].copy_from_slice(&v.to_le_bytes());
    }
    bytes
}

fn header_of(flag: u8, elsize: u8, mask: u64) -> QueueHeader {
    let mut raw = [0u8; 64];
    raw[0] = 2;
    raw[1] = flag;
    raw[8] = elsize;
    raw[16..24].copy_from_slice(&mask.to_le_bytes());
    QueueHeader::from_ptr(&raw)
}

#[test]
fn generic_queue_reads_versions_from_bytes() {
    let g = GenericQueue::from_initialized_ptr(header_of(1, 64, 3), ring_bytes_of(&[4, 4, 2, 2], 64));
    let g = match g {
        Ok(g) => g,
        Err(_) => panic!("the header is valid"),
    };
    assert_eq!(g.version(0), 4);
    assert_eq!(g.version(2), 2);
    assert!(g.verify());
    let g = GenericQueue::from_initialized_ptr(
        header_of(1, 64, 3),
        ring_bytes_of(&[4, 2, 4, 0x0100], 64),
    );
    let g = match g {
        Ok(g) => g,
        Err(_) => panic!("the header is valid"),
    };
    assert_eq!(g.version(3), 256);
    assert!(!g.verify());
    let g = GenericQueue::from_initialized_ptr(header_of(1, 64, 1), ring_bytes_of(&[2, 3], 64));
    match g {
        Ok(g) => assert!(!g.verify()),
        Err(_) => panic!("the header is valid"),
    }
}

#[test]
fn generic_queue_refuses_bad_headers() {
    assert!(matches!(
        GenericQueue::from_initialized_ptr(header_of(0, 64, 3), ring_bytes_of(&[0; 4], 64)),
        Err(QueueError::UnInitialized)
    ));
    assert!(matches!(
        GenericQueue::from_initialized_ptr(header_of(1, 64, 2), ring_bytes_of(&[0; 3], 64)),
        Err(QueueError::LengthNotPowerOfTwo)
    ));
    assert!(matches!(
        GenericQueue::from_initialized_ptr(header_of(0, 64, 2), ring_bytes_of(&[0; 3], 64)),
        Err(QueueError::LengthNotPowerOfTwo)
    ));
    assert!(matches!(
        GenericQueue::from_initialized_ptr(header_of(1, 64, u64::MAX), Vec::new()),
        Err(QueueError::LengthNotPowerOfTwo)
    ));
}

#[test]
fn feed_record_defaults() {
    assert_eq!(Timestamp::default(), Timestamp { ingestion_t: 0, exchange_t: 0 });
    assert!(matches!(QueueMessage::<u8>::default(), QueueMessage::Stop));
    let m = QueueMessage::Data((1, 2), 3u8);
    let n = m;
    assert!(matches!(n.clone(), QueueMessage::Data((1, 2), 3)));
    assert!(matches!(m, QueueMessage::Data((1, 2), 3)));
    let cell = Seqlock::new(QueueMessage::<u8>::TimeUpdate(5, Timestamp::default()));
    assert!(matches!(cell.read_copy(), QueueMessage::TimeUpdate(5, _)));
}
