//! Core value types: sector arithmetic newtypes, device and pool
//! identifiers, timestamps, ownership classification, and the error type.

use vstd::prelude::*;

verus! {

/// Bytes per sector of the on-disk format.
pub const SECTOR_SIZE: u64 = 512;

/// Sectors in one static header copy (reserved sector, signature sector,
/// and six sectors of padding).
pub const BDA_STATIC_HDR_SECTORS: u64 = 8;

/// Minimum size in bytes of a device admitted by `initialize`.
pub const MIN_DEV_SIZE: u64 = 1073741824;

/// `MIN_DEV_SIZE` expressed in sectors.
pub const MIN_DEV_SECTORS: u64 = 2097152;

/// Smallest acceptable metadata-area size, in sectors (both slots together).
pub const MIN_MDA_SECTORS: u64 = 2032;

/// Largest acceptable metadata-area size, in sectors.  Chosen so that two
/// static headers, two metadata areas and the reserved space always fit on
/// a device of `MIN_DEV_SECTORS`.
pub const MAX_MDA_SECTORS: u64 = 1047544;

/// Sectors statically reserved after the head metadata area.
pub const RESERVED_SECTORS: u64 = 2048;

/// Largest representable device size in sectors: any larger device could
/// not have its byte size expressed in a `u64`.
pub const MAX_DEV_SECTORS: u64 = 36028797018963967;

/// A count of sectors.
#[derive(Clone, Copy, PartialEq, Eq, Structural, Debug)]
pub struct Sectors(pub u64);

/// An offset measured in sectors.
#[derive(Clone, Copy, PartialEq, Eq, Structural, Debug)]
pub struct SectorOffset(pub u64);

/// A 128-bit identifier, held as two machine words (most significant first).
#[derive(Clone, Copy, PartialEq, Eq, Structural, Debug)]
pub struct Uuid {
    pub hi: u64,
    pub lo: u64,
}

/// A kernel block device identity (major and minor numbers).
#[derive(Clone, Copy, PartialEq, Eq, Structural, Debug)]
pub struct Device {
    pub major: u64,
    pub minor: u64,
}

/// Strict ordering of devices by (major, minor), as the kernel numbers them.
pub open spec fn dev_lt(a: Device, b: Device) -> bool {
    a.major < b.major || (a.major == b.major && a.minor < b.minor)
}

/// A point in time: seconds and nanoseconds.  The zero value is the
/// sentinel for "never written".
#[derive(Clone, Copy, PartialEq, Eq, Structural, Debug)]
pub struct Timespec {
    pub sec: u64,
    pub nsec: u32,
}

/// The "never written" sentinel timestamp.
pub open spec fn ts_zero() -> Timespec {
    Timespec { sec: 0, nsec: 0 }
}

/// Strict ordering of timestamps.
pub open spec fn ts_lt(a: Timespec, b: Timespec) -> bool {
    a.sec < b.sec || (a.sec == b.sec && a.nsec < b.nsec)
}

/// Classification of a device from its first 4096 bytes.
#[derive(Clone, Copy, PartialEq, Eq, Structural, Debug)]
pub enum DevOwnership {
    /// The header is all zero: nobody owns the device.
    Unowned,
    /// The header is non-zero but carries no recognizable signature:
    /// the device belongs to something else.
    Theirs,
    /// A valid signature names this pool as the owner.
    Ours(Uuid),
}

/// A structural or policy violation.  Every variant carries what the caller
/// needs to name the offending input.
#[derive(Clone, Debug, PartialEq, Eq)]
pub enum InvalidCause {
    /// A header carries the signature magic but fails validation.
    SigblockInvalid { devnode: String },
    /// A candidate device is smaller than `MIN_DEV_SIZE` bytes.
    DeviceTooSmall { devnode: String, size: u64 },
    /// A foreign device was offered without the force flag.
    NotZeroed { devnode: String },
    /// A device already belongs to a different pool.
    OwnedByOtherPool { devnode: String, pool: Uuid },
    /// A metadata-area size must be even, to split into two equal slots.
    MdaSizeOdd { mda_size: u64 },
    /// A metadata-area size below `MIN_MDA_SECTORS`.
    MdaSizeTooSmall { mda_size: u64 },
    /// A metadata-area size above `MAX_MDA_SECTORS`.
    MdaSizeTooLarge { mda_size: u64 },
    /// Neither metadata slot has ever been written.
    NoMdaWritten,
    /// The stored checksum does not match the payload read back.
    MdaCrcMismatch,
    /// A metadata payload larger than one slot's capacity.
    MetadataTooLarge { len: usize },
}

/// The error type of every fallible operation.
#[derive(Clone, Debug, PartialEq, Eq)]
pub enum EngineError {
    /// An operating-system failure, reported by the unverified edge that
    /// performs device I/O.
    Io(String),
    /// A structural or policy violation found by the verified logic.
    Invalid(InvalidCause),
}

pub type EngineResult<T> = Result<T, EngineError>;

/// Relies on `uuid::Uuid::new_v4` for a freshly generated random device
/// identifier, and on `Uuid::as_u64_pair` to read it out as the
/// (most significant, least significant) halves.  Nothing is promised of
/// the value: it depends on the process's source of randomness.
#[verifier::external_body]
pub fn fresh_uuid() -> Uuid {
    let (hi, lo) = uuid::Uuid::new_v4().as_u64_pair();
    Uuid { hi, lo }
}

} // verus!
