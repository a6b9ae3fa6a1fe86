use rsmem::buffer::ByteBuffer;
use rsmem::error::MemoryError;
use rsmem::memio::{log_level, read_outcome, scanned_region, write_outcome, LogLevel};

#[test]
fn zero_bytes_written_is_a_failure() {
    assert_eq!(write_outcome(Some(0)), Err(MemoryError::FailedToWriteProcessMemory));
    assert_eq!(write_outcome(None), Err(MemoryError::FailedToWriteProcessMemory));
    assert_eq!(write_outcome(Some(2)), Ok(2));
}

#[test]
fn short_read_keeps_delivered_prefix() {
    assert_eq!(read_outcome(vec![0xDE, 0xAD, 0, 0], Some(2)), Ok(vec![0xDE, 0xAD]));
    assert_eq!(read_outcome(vec![1, 2], Some(5)), Ok(vec![1, 2]));
    assert_eq!(read_outcome(vec![1, 2], Some(0)), Ok(vec![]));
    assert_eq!(read_outcome(vec![1, 2], None), Err(MemoryError::FailedtoReadProcessMemory));
}

#[test]
fn failed_region_read_scans_as_empty() {
    let r = scanned_region(0x1000, vec![1, 2, 3], None);
    assert_eq!(r.base, 0x1000);
    assert!(r.bytes.is_empty());
    let r = scanned_region(0x1000, vec![1, 2, 3], Some(1));
    assert_eq!(r.bytes, vec![1]);
}

#[test]
fn log_levels() {
    assert_eq!(log_level(0), LogLevel::Off);
    assert_eq!(log_level(1), LogLevel::Error);
    assert_eq!(log_level(2), LogLevel::Warn);
    assert_eq!(log_level(3), LogLevel::Info);
    assert_eq!(log_level(4), LogLevel::Debug);
    assert_eq!(log_level(5), LogLevel::Trace);
    assert_eq!(log_level(6), LogLevel::Off);
}

#[test]
fn byte_buffer_holds_its_bytes() {
    let b = ByteBuffer::from_slice(&[0xDE, 0xAD]);
    assert_eq!(b.len(), 2);
    assert!(b.cap() >= 2);
    assert_eq!(b.ptr(), &[0xDE, 0xAD]);
    assert_eq!(b.into_slice(), &[0xDE, 0xAD]);
    assert_eq!(b.into_vec(), vec![0xDE, 0xAD]);
    let e = ByteBuffer::from_vec(Vec::new());
    assert_eq!(e.len(), 0);
}
