use l3engine::error::{EALErrors, MacError, MemoryError, PortError};

#[test]
fn memory_errors_follow_the_error_number() {
    assert_eq!(MemoryError::new(1001), MemoryError::SecondaryProcess);
    assert_eq!(MemoryError::new(1002), MemoryError::NoConfig);
    assert_eq!(MemoryError::new(22), MemoryError::Invalid);
    assert_eq!(MemoryError::new(28), MemoryError::NoSpace);
    assert_eq!(MemoryError::new(17), MemoryError::Exists);
    assert_eq!(MemoryError::new(12), MemoryError::NoMem);
    assert_eq!(MemoryError::new(105), MemoryError::NoBuf);
    assert_eq!(MemoryError::new(2), MemoryError::NoEntries);
    assert_eq!(MemoryError::new(0), MemoryError::BadVal);
    assert_eq!(MemoryError::new(-1), MemoryError::BadVal);
}

#[test]
fn port_errors_follow_the_error_number() {
    assert_eq!(PortError::new(19), PortError::NoDevice);
    assert_eq!(PortError::new(22), PortError::Invalid);
    assert_eq!(PortError::new(95), PortError::NoSupport);
    assert_eq!(PortError::new(1), PortError::BadVal);
}

#[test]
fn startup_errors_follow_the_error_number() {
    assert_eq!(EALErrors::new(11), EALErrors::NoRsrc);
    assert_eq!(EALErrors::new(114), EALErrors::DuplicateCall);
    assert_eq!(EALErrors::new(22), EALErrors::InvalidArgs);
    assert_eq!(EALErrors::new(12), EALErrors::NoRsrc);
    assert_eq!(EALErrors::new(19), EALErrors::BadMemCnfg);
    assert_eq!(EALErrors::new(95), EALErrors::BadSystem);
    assert_eq!(EALErrors::new(71), EALErrors::BadPCI);
    assert_eq!(EALErrors::new(8), EALErrors::CoreLaunchFailed);
    assert_eq!(EALErrors::new(14), EALErrors::Fault);
    assert_eq!(EALErrors::new(7), EALErrors::Weird(7));
}

#[test]
fn mac_errors_follow_the_error_number() {
    assert_eq!(MacError::new(3, 19), MacError::InvalidID(3));
    assert_eq!(MacError::new(3, 5), MacError::OtherErr(5));
}

#[test]
fn error_numbers_are_those_of_the_platform() {
    assert_eq!(l3engine::error::EINVAL, libc::EINVAL);
    assert_eq!(l3engine::error::ENOSPC, libc::ENOSPC);
    assert_eq!(l3engine::error::EEXIST, libc::EEXIST);
    assert_eq!(l3engine::error::ENOMEM, libc::ENOMEM);
    assert_eq!(l3engine::error::ENODEV, libc::ENODEV);
    assert_eq!(l3engine::error::ENOTSUP, libc::ENOTSUP);
    assert_eq!(l3engine::error::ENOBUFS, libc::ENOBUFS);
    assert_eq!(l3engine::error::ENOENT, libc::ENOENT);
    assert_eq!(l3engine::error::EAGAIN, libc::EAGAIN);
    assert_eq!(l3engine::error::EALREADY, libc::EALREADY);
    assert_eq!(l3engine::error::EFAULT, libc::EFAULT);
    assert_eq!(l3engine::error::EPROTO, libc::EPROTO);
    assert_eq!(l3engine::error::ENOEXEC, libc::ENOEXEC);
}
