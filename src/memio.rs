use vstd::prelude::*;
use crate::error::MemoryError;
use crate::scan::RegionBytes;

verus! {

/// The bytes that an engine read delivered: the first `delivered` bytes of
/// the buffer it filled, or all of them if it claims more.
pub open spec fn delivered_prefix(buffer: Seq<u8>, delivered: usize) -> Seq<u8> {
    if delivered <= buffer.len() {
        buffer.take(delivered as int)
    } else {
        buffer
    }
}

fn keep_prefix(buffer: Vec<u8>, delivered: usize) -> (r: Vec<u8>)
    ensures
        r@ == delivered_prefix(buffer@, delivered),
{
    let mut buffer = buffer;
    buffer.truncate(delivered);
    buffer
}

/// The outcome of a read of a target's memory into `buffer`, given how many
/// bytes the engine delivered (`None`: nothing at all). A short read is no
/// failure.
pub fn read_outcome(buffer: Vec<u8>, delivered: Option<usize>) -> (r: Result<Vec<u8>, MemoryError>)
    ensures
        match delivered {
            Some(n) => r is Ok && r->Ok_0@ == delivered_prefix(buffer@, n),
            None => r == Err::<Vec<u8>, MemoryError>(MemoryError::FailedtoReadProcessMemory),
        },
{
    match delivered {
        Some(n) => Ok(keep_prefix(buffer, n)),
        None => Err(MemoryError::FailedtoReadProcessMemory),
    }
}

/// The outcome of a write, given the count the engine confirmed (`None`: the
/// write failed). Zero bytes written is a failure too.
pub fn write_outcome(written: Option<usize>) -> (r: Result<usize, MemoryError>)
    ensures
        match written {
            Some(n) => if n > 0 {
                r == Ok::<usize, MemoryError>(n)
            } else {
                r == Err::<usize, MemoryError>(MemoryError::FailedToWriteProcessMemory)
            },
            None => r == Err::<usize, MemoryError>(MemoryError::FailedToWriteProcessMemory),
        },
{
    match written {
        Some(n) => if n > 0 {
            Ok(n)
        } else {
            Err(MemoryError::FailedToWriteProcessMemory)
        },
        None => Err(MemoryError::FailedToWriteProcessMemory),
    }
}

/// The contents of a region as a scan sees them: what the engine delivered,
/// and nothing where the read failed.
pub fn scanned_region(base: usize, buffer: Vec<u8>, delivered: Option<usize>) -> (r: RegionBytes)
    ensures
        r.base == base,
        r.bytes@ == match delivered {
            Some(n) => delivered_prefix(buffer@, n),
            None => Seq::<u8>::empty(),
        },
{
    match delivered {
        Some(n) => RegionBytes { base, bytes: keep_prefix(buffer, n) },
        None => RegionBytes { base, bytes: Vec::new() },
    }
}

/// How much the library logs.
#[derive(Debug, Clone, Copy, PartialEq, Eq, Structural)]
pub enum LogLevel {
    Off,
    Error,
    Warn,
    Info,
    Debug,
    Trace,
}

pub open spec fn log_level_spec(level: usize) -> LogLevel {
    if level == 1 {
        LogLevel::Error
    } else if level == 2 {
        LogLevel::Warn
    } else if level == 3 {
        LogLevel::Info
    } else if level == 4 {
        LogLevel::Debug
    } else if level == 5 {
        LogLevel::Trace
    } else {
        LogLevel::Off
    }
}

/// The level that a numeric setting selects: 0 off, 1 error, 2 warn, 3 info,
/// 4 debug, 5 trace; any other value means off.
pub fn log_level(level: usize) -> (r: LogLevel)
    ensures
        r == log_level_spec(level),
{
    match level {
        1 => LogLevel::Error,
        2 => LogLevel::Warn,
        3 => LogLevel::Info,
        4 => LogLevel::Debug,
        5 => LogLevel::Trace,
        _ => LogLevel::Off,
    }
}

} // verus!
