use rsmem::error::MemoryError;
use rsmem::registry::TargetRegistry;

#[test]
fn attach_detach_lifecycle() {
    let mut reg: TargetRegistry<&str> = TargetRegistry::new();
    assert_eq!(reg.attach(42, "first"), Ok(0));
    assert_eq!(reg.attach(42, "again"), Err(MemoryError::ProcessAlreadyAttached));
    assert_eq!(reg.resolve(0), Ok(&"first"));
    assert_eq!(reg.detach(42), Ok("first"));
    assert_eq!(reg.resolve(0), Err(MemoryError::InvalidTargetHandle));
}

#[test]
fn detach_unknown_pid_fails() {
    let mut reg: TargetRegistry<u8> = TargetRegistry::new();
    assert_eq!(reg.detach(7), Err(MemoryError::ProcessNotAttached));
    assert_eq!(reg.attach(7, 1), Ok(0));
    assert_eq!(reg.detach(7), Ok(1));
    assert_eq!(reg.detach(7), Err(MemoryError::ProcessNotAttached));
}

#[test]
fn handles_are_never_reused() {
    let mut reg: TargetRegistry<u32> = TargetRegistry::new();
    assert_eq!(reg.attach(1, 10), Ok(0));
    assert_eq!(reg.attach(2, 20), Ok(1));
    assert_eq!(reg.detach(1), Ok(10));
    assert_eq!(reg.attach(1, 11), Ok(2));
    assert_eq!(reg.attach(3, 30), Ok(3));
    assert_eq!(reg.resolve(0), Err(MemoryError::InvalidTargetHandle));
    assert_eq!(reg.resolve(1), Ok(&20));
    assert_eq!(reg.resolve(2), Ok(&11));
    assert_eq!(reg.resolve(3), Ok(&30));
    assert_eq!(reg.resolve(4), Err(MemoryError::InvalidTargetHandle));
}

#[test]
fn contains_pid_follows_attachments() {
    let mut reg: TargetRegistry<()> = TargetRegistry::new();
    assert!(!reg.contains_pid(5));
    reg.attach(5, ()).unwrap();
    assert!(reg.contains_pid(5));
    reg.detach(5).unwrap();
    assert!(!reg.contains_pid(5));
}

#[test]
fn error_keys() {
    assert_eq!(MemoryError::ProcessNotAttached.key(), "process-not-attached");
    assert_eq!(MemoryError::ProcessAlreadyAttached.key(), "process-already-attached");
    assert_eq!(MemoryError::InvalidTargetHandle.key(), "invalid-target-handle");
    assert_eq!(MemoryError::FailedToWriteProcessMemory.key(), "failed-to-write-process-memory");
    assert_eq!(MemoryError::FailedtoReadProcessMemory.key(), "failed-to-read-process-memory");
    assert_eq!(MemoryError::MalformedPattern.key(), "malformed-pattern");
}
