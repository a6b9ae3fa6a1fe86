use vstd::prelude::*;

verus! {

/// The failures that the library reports to its callers.
#[derive(Debug, Clone, Copy, PartialEq, Eq, Structural)]
pub enum MemoryError {
    ProcessNotAttached,
    ProcessAlreadyAttached,
    FailedToWriteProcessMemory,
    FailedtoReadProcessMemory,
    InvalidTargetHandle,
    MalformedPattern,
}

/// The message key under which each error is localized.
pub open spec fn error_key(e: MemoryError) -> Seq<char> {
    match e {
        MemoryError::ProcessNotAttached => "process-not-attached"@,
        MemoryError::ProcessAlreadyAttached => "process-already-attached"@,
        MemoryError::FailedToWriteProcessMemory => "failed-to-write-process-memory"@,
        MemoryError::FailedtoReadProcessMemory => "failed-to-read-process-memory"@,
        MemoryError::InvalidTargetHandle => "invalid-target-handle"@,
        MemoryError::MalformedPattern => "malformed-pattern"@,
    }
}

impl MemoryError {
    /// The message key of this error; a translation lookup falls back to it.
    pub fn key(&self) -> (r: &'static str)
        ensures
            r@ == error_key(*self),
    {
        match self {
            MemoryError::ProcessNotAttached => "process-not-attached",
            MemoryError::ProcessAlreadyAttached => "process-already-attached",
            MemoryError::FailedToWriteProcessMemory => "failed-to-write-process-memory",
            MemoryError::FailedtoReadProcessMemory => "failed-to-read-process-memory",
            MemoryError::InvalidTargetHandle => "invalid-target-handle",
            MemoryError::MalformedPattern => "malformed-pattern",
        }
    }
}

} // verus!
