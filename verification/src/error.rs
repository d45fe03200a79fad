//! The error taxonomy shared by every operation of the driver.

use vstd::prelude::*;

verus! {

/// Why a single filesystem operation failed. Every failure is terminal to
/// the operation that raised it; nothing is retried internally.
#[derive(Copy, Clone, Debug, PartialEq, Eq, Structural)]
pub enum Error {
    /// The master boot record or BIOS parameter block trailing signature
    /// was not `0x55 0xAA`.
    BadSignature,
    /// A partition table slot holds a boot indicator other than `0x00` or
    /// `0x80`; the payload is the 0-indexed slot number.
    UnknownBootIndicator(u8),
    /// No FAT32 partition exists, or a directory lookup missed.
    NotFound,
    /// The underlying block device failed to serve a read or write.
    Io,
    /// A caller handed in a malformed argument: an out-of-range seek, a
    /// relative path, a lookup in something that is not a directory, or a
    /// read of a cluster whose FAT status is not data.
    InvalidInput,
    /// The on-disk structures are inconsistent: a bad FAT status in the
    /// middle of a chain, a malformed name encoding, or geometry fields
    /// that contradict each other.
    InvalidData,
    /// A file's recorded size claims more data than its cluster chain
    /// provides.
    UnexpectedEof,
    /// The operation belongs to the write path, which this read-only
    /// driver does not implement.
    NotImplemented,
}

} // verus!
