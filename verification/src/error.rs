//! Error kinds of the fabric, and how driver error numbers map onto them.

use vstd::prelude::*;

verus! {

/// Error number for an argument that is out of range.
pub const EINVAL: i32 = 22;

/// Error number for a fixed-capacity resource that is full.
pub const ENOSPC: i32 = 28;

/// Error number for a name that is already taken.
pub const EEXIST: i32 = 17;

/// Error number for a failed allocation.
pub const ENOMEM: i32 = 12;

/// Error number for a device that does not exist.
pub const ENODEV: i32 = 19;

/// Error number for an operation the device does not support.
pub const ENOTSUP: i32 = 95;

/// Error number for an exhausted buffer pool.
pub const ENOBUFS: i32 = 105;

/// Error number for a name that is not known.
pub const ENOENT: i32 = 2;

/// Error number for a resource that is temporarily unavailable.
pub const EAGAIN: i32 = 11;

/// Error number for an operation that was already done.
pub const EALREADY: i32 = 114;

/// Error number for a bad address.
pub const EFAULT: i32 = 14;

/// Error number for a protocol error.
pub const EPROTO: i32 = 71;

/// Error number for a launch that failed.
pub const ENOEXEC: i32 = 8;

/// Driver error number: the call was made from a secondary process.
pub const E_RTE_SECONDARY: i32 = 1001;

/// Driver error number: the process-wide configuration is missing.
pub const E_RTE_NO_CONFIG: i32 = 1002;

/// What can go wrong with pools, rings and memory zones.
#[derive(Debug, Clone, Copy, PartialEq, Eq, Structural)]
pub enum MemoryError {
    /// The process-wide configuration is missing.
    NoConfig,
    /// The operation is restricted to the primary process.
    SecondaryProcess,
    /// An argument is out of range.
    Invalid,
    /// A fixed-capacity resource is full.
    NoSpace,
    /// The name is already taken.
    Exists,
    /// Memory could not be allocated.
    NoMem,
    /// The buffer pool is exhausted.
    NoBuf,
    /// There is nothing to dequeue, or nothing under that name.
    NoEntries,
    /// An error number that none of the other kinds covers.
    BadVal,
}

/// The kind that a driver error number stands for.
pub open spec fn memory_error_of(errno: i32) -> MemoryError {
    if errno == E_RTE_SECONDARY {
        MemoryError::SecondaryProcess
    } else if errno == E_RTE_NO_CONFIG {
        MemoryError::NoConfig
    } else if errno == EINVAL {
        MemoryError::Invalid
    } else if errno == ENOSPC {
        MemoryError::NoSpace
    } else if errno == EEXIST {
        MemoryError::Exists
    } else if errno == ENOMEM {
        MemoryError::NoMem
    } else if errno == ENOBUFS {
        MemoryError::NoBuf
    } else if errno == ENOENT {
        MemoryError::NoEntries
    } else {
        MemoryError::BadVal
    }
}

impl MemoryError {
    /// Maps a driver error number to its kind.
    pub fn new(errno: i32) -> (e: Self)
        ensures
            e == memory_error_of(errno),
    {
        if errno == E_RTE_SECONDARY {
            MemoryError::SecondaryProcess
        } else if errno == E_RTE_NO_CONFIG {
            MemoryError::NoConfig
        } else if errno == EINVAL {
            MemoryError::Invalid
        } else if errno == ENOSPC {
            MemoryError::NoSpace
        } else if errno == EEXIST {
            MemoryError::Exists
        } else if errno == ENOMEM {
            MemoryError::NoMem
        } else if errno == ENOBUFS {
            MemoryError::NoBuf
        } else if errno == ENOENT {
            MemoryError::NoEntries
        } else {
            MemoryError::BadVal
        }
    }
}

/// A counter of errors after `k` more of them; it stops at its largest
/// value.
pub open spec fn count_more(n: u64, k: nat) -> u64 {
    if n + k <= u64::MAX {
        (n + k) as u64
    } else {
        u64::MAX
    }
}

/// A counter of errors after one more.
pub open spec fn bump(n: u64) -> u64 {
    count_more(n, 1)
}

/// Computes [`count_more`].
pub fn counted(n: u64, k: usize) -> (m: u64)
    ensures
        m == count_more(n, k as nat),
{
    if k as u64 <= u64::MAX - n {
        n + k as u64
    } else {
        u64::MAX
    }
}

/// What can go wrong when a packet is routed through the channel registry.
#[derive(Debug, Clone, Copy, PartialEq, Eq, Structural)]
pub enum RingClientMapError {
    /// The ring or the pool refused the operation.
    MemoryError(MemoryError),
    /// No channel is registered under this client id.
    ClientNotFound(u16),
}

/// A constraint that an edit of a packet buffer violated.
#[derive(Debug, Clone, Copy, PartialEq, Eq, Structural)]
pub enum BufError {
    /// The offset (first field) lies beyond the data length (second field).
    BadOffset(usize, usize),
    /// The edit would not change the length of the data.
    NotResized,
    /// The size asked for (first field) exceeds what is left (second field).
    OutOfBuffer(usize, usize),
}

/// What can go wrong when a buffer is built from bytes.
#[derive(Debug, Clone, Copy, PartialEq, Eq, Structural)]
pub enum MbufError {
    /// The pool could not provide a buffer.
    Memory(MemoryError),
    /// The bytes do not fit the buffer.
    Buf(BufError),
}

/// What can go wrong with a port.
#[derive(Debug, Clone, Copy, PartialEq, Eq, Structural)]
pub enum PortError {
    /// There is no such device.
    NoDevice,
    /// An argument is out of range.
    Invalid,
    /// The device does not support the operation.
    NoSupport,
    /// An error number that none of the other kinds covers.
    BadVal,
}

/// The kind that a driver error number stands for, for a port.
pub open spec fn port_error_of(errno: i32) -> PortError {
    if errno == ENODEV {
        PortError::NoDevice
    } else if errno == EINVAL {
        PortError::Invalid
    } else if errno == ENOTSUP {
        PortError::NoSupport
    } else {
        PortError::BadVal
    }
}

impl PortError {
    /// Maps a driver error number to its kind.
    pub fn new(errno: i32) -> (e: Self)
        ensures
            e == port_error_of(errno),
    {
        if errno == ENODEV {
            PortError::NoDevice
        } else if errno == EINVAL {
            PortError::Invalid
        } else if errno == ENOTSUP {
            PortError::NoSupport
        } else {
            PortError::BadVal
        }
    }
}

/// What can go wrong when the environment is brought up or torn down.
#[derive(Debug, Clone, Copy, PartialEq, Eq, Structural)]
pub enum EALErrors {
    /// A bus or system resource was not available; setup may be tried again.
    NoRsrc,
    /// The environment was already initialised.
    DuplicateCall,
    /// The arguments are invalid.
    InvalidArgs,
    /// Out of memory.
    NoMem,
    /// Memory setup failed.
    BadMemCnfg,
    /// The environment cannot be initialised on this system.
    BadSystem,
    /// The PCI bus is absent or unreadable.
    BadPCI,
    /// A service core failed to launch.
    CoreLaunchFailed,
    /// A configuration name was not found, or resources could not be released.
    Fault,
    /// An error number that none of the other kinds covers.
    Weird(i32),
}

/// The kind that a driver error number stands for, at startup. Running out
/// of memory counts as a resource that may be free again later, and a
/// missing device as a failed memory setup.
pub open spec fn eal_error_of(errno: i32) -> EALErrors {
    if errno == EAGAIN {
        EALErrors::NoRsrc
    } else if errno == EALREADY {
        EALErrors::DuplicateCall
    } else if errno == EINVAL {
        EALErrors::InvalidArgs
    } else if errno == ENOMEM {
        EALErrors::NoRsrc
    } else if errno == ENODEV {
        EALErrors::BadMemCnfg
    } else if errno == ENOTSUP {
        EALErrors::BadSystem
    } else if errno == EPROTO {
        EALErrors::BadPCI
    } else if errno == ENOEXEC {
        EALErrors::CoreLaunchFailed
    } else if errno == EFAULT {
        EALErrors::Fault
    } else {
        EALErrors::Weird(errno)
    }
}

impl EALErrors {
    /// Maps a driver error number to its kind.
    pub fn new(errno: i32) -> (e: Self)
        ensures
            e == eal_error_of(errno),
    {
        if errno == EAGAIN {
            EALErrors::NoRsrc
        } else if errno == EALREADY {
            EALErrors::DuplicateCall
        } else if errno == EINVAL {
            EALErrors::InvalidArgs
        } else if errno == ENOMEM {
            EALErrors::NoRsrc
        } else if errno == ENODEV {
            EALErrors::BadMemCnfg
        } else if errno == ENOTSUP {
            EALErrors::BadSystem
        } else if errno == EPROTO {
            EALErrors::BadPCI
        } else if errno == ENOEXEC {
            EALErrors::CoreLaunchFailed
        } else if errno == EFAULT {
            EALErrors::Fault
        } else {
            EALErrors::Weird(errno)
        }
    }
}

/// What can go wrong when a port's hardware address is read.
#[derive(Debug, Clone, Copy, PartialEq, Eq, Structural)]
pub enum MacError {
    /// The port id does not name a device.
    InvalidID(u8),
    /// Any other error number.
    OtherErr(i32),
}

/// The kind that a driver error number stands for, for port `id`.
pub open spec fn mac_error_of(id: u8, errno: i32) -> MacError {
    if errno == ENODEV {
        MacError::InvalidID(id)
    } else {
        MacError::OtherErr(errno)
    }
}

impl MacError {
    /// Maps a driver error number to its kind.
    pub fn new(id: u8, errno: i32) -> (e: Self)
        ensures
            e == mac_error_of(id, errno),
    {
        if errno == ENODEV {
            MacError::InvalidID(id)
        } else {
            MacError::OtherErr(errno)
        }
    }
}

} // verus!
